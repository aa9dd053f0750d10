use apple_speech::job::{task_failed, Job, JobReply, JobStage};
use std::time::Duration;

#[test]
fn audio_without_a_rate_is_refused() {
    for count in [0, 1, 1_000] {
        let job = Job::new(count, 0);
        assert_eq!(job.stage(), JobStage::Finished);
        assert_eq!(
            job.into_result(),
            Err("Apple Speech transcription requires a positive sample rate.".to_string())
        );
    }
}

#[test]
fn audio_without_samples_says_nothing() {
    let job = Job::new(0, 16_000);
    assert_eq!(job.stage(), JobStage::Finished);
    assert_eq!(job.into_result(), Ok(String::new()));
}

#[test]
fn audio_that_cannot_be_written_ends_the_job() {
    let job = Job::new(10, 16_000);
    assert_eq!(job.stage(), JobStage::WriteAudio);
    let job = job.advance(JobReply::Written(Err("disk full".to_string())));
    assert_eq!(job.stage(), JobStage::Finished);
    assert_eq!(job.into_result(), Err("disk full".to_string()));
}

#[test]
fn a_transcript_is_trimmed_after_the_audio_is_removed() {
    let job = Job::new(10, 16_000).advance(JobReply::Written(Ok(())));
    assert_eq!(job.stage(), JobStage::Recognize);
    let job = job.advance(JobReply::Recognized(Ok(" hello there\n".to_string())));
    assert_eq!(job.stage(), JobStage::RemoveAudio);
    let job = job.advance(JobReply::Removed);
    assert_eq!(job.stage(), JobStage::Finished);
    assert_eq!(job.into_result(), Ok("hello there".to_string()));
}

#[test]
fn audio_is_removed_after_a_failure_too() {
    let job = Job::new(10, 16_000)
        .advance(JobReply::Written(Ok(())))
        .advance(JobReply::Recognized(Err(" not heard ".to_string())));
    assert_eq!(job.stage(), JobStage::RemoveAudio);
    assert_eq!(
        job.advance(JobReply::Removed).into_result(),
        Err(" not heard ".to_string())
    );
}

#[test]
fn replies_out_of_turn_change_nothing_in_a_job() {
    let job = Job::new(10, 16_000).advance(JobReply::Removed);
    assert_eq!(job.stage(), JobStage::WriteAudio);
    assert_eq!(
        job.into_result(),
        Err("Apple Speech recognition ended without a result.".to_string())
    );
}

#[test]
fn a_failed_thread_is_reported() {
    assert_eq!(task_failed("panic"), "Apple Speech task failed: panic");
}

#[test]
fn a_job_waits_as_long_as_its_audio_asks_for() {
    let job = Job::new(8_000, 16_000);
    assert_eq!(job.timeout(), Duration::new(31, 500_000_000));
    let job = job.advance(JobReply::Written(Ok(())));
    assert_eq!(job.stage(), JobStage::Recognize);
    assert_eq!(job.timeout(), Duration::new(31, 500_000_000));
    let job = Job::new(100 * 44_100, 44_100).advance(JobReply::Written(Ok(())));
    assert_eq!(job.timeout(), Duration::from_secs(240));
}
