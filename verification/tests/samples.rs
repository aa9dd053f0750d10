use apple_speech::samples::{quantize_sample, quantize_samples, wav_format, WavFormat};

fn in_floating_point(sample: f32) -> i16 {
    (sample.clamp(-1.0, 1.0) * i16::MAX as f32).round() as i16
}

#[test]
fn silence_and_full_scale_are_exact() {
    assert_eq!(quantize_sample(0f32.to_bits()), 0);
    assert_eq!(quantize_sample((-0f32).to_bits()), 0);
    assert_eq!(quantize_sample(1f32.to_bits()), 32_767);
    assert_eq!(quantize_sample((-1f32).to_bits()), -32_767);
    assert_eq!(quantize_sample(0.5f32.to_bits()), 16_384);
    assert_eq!(quantize_sample((-0.5f32).to_bits()), -16_384);
    assert_eq!(quantize_sample(0.25f32.to_bits()), 8_192);
}

#[test]
fn samples_beyond_one_are_clipped() {
    assert_eq!(quantize_sample(1.5f32.to_bits()), 32_767);
    assert_eq!(quantize_sample((-7f32).to_bits()), -32_767);
    assert_eq!(quantize_sample(f32::MAX.to_bits()), 32_767);
    assert_eq!(quantize_sample(f32::INFINITY.to_bits()), 32_767);
    assert_eq!(quantize_sample(f32::NEG_INFINITY.to_bits()), -32_767);
}

#[test]
fn samples_that_are_no_number_are_silent() {
    assert_eq!(quantize_sample(f32::NAN.to_bits()), 0);
    assert_eq!(quantize_sample(0x7f80_0001), 0);
    assert_eq!(quantize_sample(0xffff_ffff), 0);
}

#[test]
fn samples_agree_with_floating_point() {
    let mut seed: u64 = 7;
    for exponent in 0..256u32 {
        for sign in [0u32, 0x8000_0000] {
            for fraction in [0u32, 1, 2, 0x3f_ffff, 0x40_0000, 0x40_0001, 0x7f_fffe, 0x7f_ffff] {
                let bits = sign | exponent << 23 | fraction;
                assert_eq!(quantize_sample(bits), in_floating_point(f32::from_bits(bits)));
            }
            for _ in 0..500 {
                seed = seed.wrapping_mul(6364136223846793005).wrapping_add(1442695040888963407);
                let bits = sign | exponent << 23 | (seed >> 41) as u32;
                assert_eq!(
                    quantize_sample(bits),
                    in_floating_point(f32::from_bits(bits)),
                    "{bits:#x}"
                );
            }
        }
    }
}

#[test]
fn samples_near_a_tie_agree_with_floating_point() {
    for level in 0..32_767u32 {
        let bits = ((level as f32 + 0.5) / 32_767.0).to_bits();
        for near in bits.saturating_sub(3)..=bits + 3 {
            assert_eq!(
                quantize_sample(near),
                in_floating_point(f32::from_bits(near)),
                "{near:#x}"
            );
        }
    }
}

#[test]
fn louder_samples_are_never_quieter() {
    let mut last = 0;
    for step in 0..100_000u32 {
        let level = quantize_sample(step * 21_000);
        if step * 21_000 <= 0x7f80_0000 {
            assert!(level >= last);
            last = level;
        }
    }
}

#[test]
fn flipping_the_sign_flips_the_level() {
    for step in 0..10_000u32 {
        let bits = 0x3000_0000 + step * 30_001;
        assert_eq!(quantize_sample(bits | 0x8000_0000), -quantize_sample(bits));
    }
}

#[test]
fn samples_keep_their_order() {
    let bits: Vec<u32> = [0.0f32, 1.0, -0.5, f32::NAN].iter().map(|s| s.to_bits()).collect();
    assert_eq!(quantize_samples(&bits), vec![0, 32_767, -16_384, 0]);
    assert_eq!(quantize_samples(&[]), Vec::<i16>::new());
}

#[test]
fn audio_is_one_channel_of_sixteen_bits() {
    assert_eq!(
        wav_format(16_000),
        WavFormat { channels: 1, sample_rate: 16_000, bits_per_sample: 16 }
    );
}

#[test]
fn levels_are_exact_to_within_one() {
    for step in 0..10_000u32 {
        let bits = 0x3000_0000 + step * 26_000;
        let exact = f32::from_bits(bits) as f64 * 32_767.0;
        assert!((quantize_sample(bits) as f64 - exact).abs() < 1.0);
    }
}
