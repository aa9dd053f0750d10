use apple_speech::files::{file_fault, temp_file_name, FileStep};

#[test]
fn file_names_hold_the_instant_and_the_process() {
    assert_eq!(
        temp_file_name(1_700_000_000_123_456_789, 4_242),
        "voquill-apple-speech-1700000000123456789-4242.wav"
    );
    assert_eq!(temp_file_name(0, 0), "voquill-apple-speech-0-0.wav");
    assert_eq!(
        temp_file_name(u128::MAX, u32::MAX),
        format!("voquill-apple-speech-{}-{}.wav", u128::MAX, u32::MAX)
    );
}

#[test]
fn file_names_are_distinct() {
    assert_ne!(temp_file_name(1, 12), temp_file_name(11, 2));
    assert_ne!(temp_file_name(1, 2), temp_file_name(2, 1));
    assert_ne!(temp_file_name(10, 1), temp_file_name(1, 10));
}

#[test]
fn each_step_has_its_own_message() {
    assert_eq!(
        file_fault(FileStep::Name, "clock"),
        "Failed to create Apple Speech temp file name: clock"
    );
    assert_eq!(
        file_fault(FileStep::Create, "denied"),
        "Failed to create Apple Speech WAV file: denied"
    );
    assert_eq!(
        file_fault(FileStep::Write, "full"),
        "Failed to write Apple Speech WAV sample: full"
    );
    assert_eq!(
        file_fault(FileStep::Finalize, ""),
        "Failed to finalize Apple Speech WAV file: "
    );
}
