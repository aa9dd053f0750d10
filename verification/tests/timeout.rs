use apple_speech::timeout::{recognition_timeout, recognition_timeout_nanos};
use std::time::Duration;

fn in_floating_point(sample_count: usize, sample_rate: u32) -> Duration {
    let audio_seconds = sample_count as f64 / sample_rate as f64;
    let timeout_seconds = (audio_seconds * 3.0 + 30.0).clamp(30.0, 240.0);
    Duration::from_secs_f64(timeout_seconds)
}

#[test]
fn whole_seconds_are_tripled_and_thirty_added() {
    assert_eq!(recognition_timeout(16_000, 16_000), Duration::from_secs(33));
    assert_eq!(recognition_timeout(441_000, 44_100), Duration::from_secs(60));
    assert_eq!(recognition_timeout(69 * 48_000, 48_000), Duration::from_secs(237));
}

#[test]
fn no_audio_waits_thirty_seconds() {
    assert_eq!(recognition_timeout(0, 16_000), Duration::from_secs(30));
    assert_eq!(recognition_timeout_nanos(0, 1), 30_000_000_000);
}

#[test]
fn long_audio_waits_four_minutes() {
    assert_eq!(recognition_timeout(70 * 16_000, 16_000), Duration::from_secs(240));
    assert_eq!(recognition_timeout(usize::MAX, 1), Duration::from_secs(240));
    assert_eq!(recognition_timeout(usize::MAX, u32::MAX), Duration::from_secs(240));
    assert_eq!(recognition_timeout(5, 0), Duration::from_secs(240));
}

#[test]
fn fractions_of_a_second_count() {
    assert_eq!(recognition_timeout(8_000, 16_000), Duration::new(31, 500_000_000));
    assert_eq!(recognition_timeout(1, 44_100), Duration::new(30, 68_027));
    assert_eq!(recognition_timeout_nanos(1, 3), 31_000_000_000);
}

#[test]
fn waits_agree_with_floating_point() {
    let mut seed: u64 = 0x9e37_79b9_7f4a_7c15;
    for rate in [1u32, 2, 3, 7, 1_024, 5_120, 8_000, 11_025, 16_000, 22_050, 44_100, 48_000,
        96_000, 999_983, 1 << 20, (1 << 20) + 1, 3 << 24, u32::MAX - 1, u32::MAX]
    {
        for count in [0usize, 1, 2, 3, 5, 99, 1_000] {
            assert_eq!(recognition_timeout(count, rate), in_floating_point(count, rate));
        }
        for _ in 0..3_000 {
            seed = seed.wrapping_mul(6364136223846793005).wrapping_add(1442695040888963407);
            let count = ((seed >> 20) % (75 * rate as u64 + 1)) as usize;
            assert_eq!(
                recognition_timeout(count, rate),
                in_floating_point(count, rate),
                "{count} at {rate}"
            );
        }
    }
}

#[test]
fn ties_between_nanoseconds_agree_with_floating_point() {
    for rate in [1_024u32, 2_048, 5_120, 25_600, 640_000, 3_200_000, 1 << 30] {
        for count in (1..4_000usize).step_by(2) {
            assert_eq!(recognition_timeout(count, rate), in_floating_point(count, rate));
        }
    }
}

#[test]
fn every_rate_and_count_agree_with_floating_point() {
    let mut seed: u64 = 1;
    for _ in 0..60_000 {
        seed = seed.wrapping_mul(6364136223846793005).wrapping_add(1442695040888963407);
        let rate = (seed >> 32) as u32 >> (seed % 32);
        seed = seed.wrapping_mul(6364136223846793005).wrapping_add(1442695040888963407);
        let count = (seed >> (seed % 61)) as usize + 1;
        assert_eq!(
            recognition_timeout(count, rate),
            in_floating_point(count, rate),
            "{count} at {rate}"
        );
    }
}

#[test]
fn waits_grow_with_the_audio_and_shrink_with_the_rate() {
    for count in 0..2_000usize {
        assert!(recognition_timeout_nanos(count, 997) <= recognition_timeout_nanos(count + 1, 997));
    }
    for rate in 1..2_000u32 {
        assert!(
            recognition_timeout_nanos(12_345, rate) >= recognition_timeout_nanos(12_345, rate + 1)
        );
    }
}

#[test]
fn the_longest_wait_starts_at_seventy_seconds() {
    for rate in [1u32, 3, 16_000, 44_100, u32::MAX] {
        let limit = 70 * rate as usize;
        assert_eq!(recognition_timeout_nanos(limit, rate), 240_000_000_000);
        assert!(recognition_timeout_nanos(limit - 1, rate) < 240_000_000_000);
    }
    assert_eq!(recognition_timeout_nanos(70 * u32::MAX as usize - 1, u32::MAX), 239_999_999_999);
}

#[test]
fn waits_are_exact_to_the_nanosecond() {
    let mut seed: u64 = 3;
    for rate in [1u32, 7, 11_025, 44_100, 999_983, u32::MAX] {
        for _ in 0..500 {
            seed = seed.wrapping_mul(6364136223846793005).wrapping_add(1442695040888963407);
            let count = (seed >> 8) % (70 * rate as u64);
            let nanos = recognition_timeout_nanos(count as usize, rate) as i128;
            let (n, r) = (count as i128, rate as i128);
            assert!((nanos * r - 1_000_000_000 * (3 * n + 30 * r)).abs() <= r);
        }
    }
}
