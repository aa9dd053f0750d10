//! One transcription, from samples to text: write the audio, recognize it, remove it.
use vstd::prelude::*;
use std::time::Duration;

use crate::recognition;
use crate::recognition::{settle, Outcome};
use crate::text;
use crate::text::{join, trim};
use crate::timeout;
use crate::timeout::recognition_timeout;

verus! {

/// What is to be done next.
#[derive(Clone, Copy, PartialEq, Eq, Structural, Debug)]
pub enum JobStage {
    /// Write the audio file. Reply: `Written`.
    WriteAudio,
    /// Recognize the audio file. Reply: `Recognized`.
    Recognize,
    /// Remove the audio file, whether or not that works. Reply: `Removed`.
    RemoveAudio,
    /// Nothing: the result is there.
    Finished,
}

/// What came of it.
pub enum JobReply {
    Written(Result<(), String>),
    Recognized(Outcome),
    Removed,
}

/// A reply, as text.
pub enum JobReplyText {
    Written(Result<(), Seq<char>>),
    Recognized(recognition::OutcomeText),
    Removed,
}

impl View for JobReply {
    type V = JobReplyText;

    open spec fn view(&self) -> JobReplyText {
        match *self {
            JobReply::Written(Ok(_)) => JobReplyText::Written(Ok(())),
            JobReply::Written(Err(message)) => JobReplyText::Written(Err(message@)),
            JobReply::Recognized(outcome) => JobReplyText::Recognized(
                recognition::outcome_text(outcome),
            ),
            JobReply::Removed => JobReplyText::Removed,
        }
    }
}

/// One transcription.
pub struct Job {
    stage: JobStage,
    sample_count: usize,
    sample_rate: u32,
    result: Option<Outcome>,
}

/// One transcription, as text.
pub struct JobText {
    pub stage: JobStage,
    pub sample_count: nat,
    pub sample_rate: nat,
    pub result: Option<recognition::OutcomeText>,
}

impl View for Job {
    type V = JobText;

    closed spec fn view(&self) -> JobText {
        JobText {
            stage: self.stage,
            sample_count: self.sample_count as nat,
            sample_rate: self.sample_rate as nat,
            result: recognition::optional_outcome(self.result),
        }
    }
}

/// The job for `sample_count` samples at `sample_rate`: audio without a rate is refused, and
/// audio without samples says nothing.
pub open spec fn new_job(sample_count: nat, sample_rate: nat) -> JobText {
    if sample_rate == 0 {
        JobText {
            stage: JobStage::Finished,
            sample_count,
            sample_rate,
            result: Some(Err("Apple Speech transcription requires a positive sample rate."@)),
        }
    } else if sample_count == 0 {
        JobText {
            stage: JobStage::Finished,
            sample_count,
            sample_rate,
            result: Some(Ok(Seq::empty())),
        }
    } else {
        JobText { stage: JobStage::WriteAudio, sample_count, sample_rate, result: None }
    }
}

/// An outcome with its transcript trimmed.
pub open spec fn trimmed_outcome(outcome: recognition::OutcomeText) -> recognition::OutcomeText {
    match outcome {
        Ok(transcript) => Ok(text::trimmed(transcript)),
        Err(message) => Err(message),
    }
}

/// The job after a reply. A reply that does not belong to the stage changes nothing.
pub open spec fn job_after(job: JobText, reply: JobReplyText) -> JobText {
    match (job.stage, reply) {
        (JobStage::WriteAudio, JobReplyText::Written(Ok(_))) => JobText {
            stage: JobStage::Recognize,
            ..job
        },
        (JobStage::WriteAudio, JobReplyText::Written(Err(message))) => JobText {
            stage: JobStage::Finished,
            result: Some(Err(message)),
            ..job
        },
        (JobStage::Recognize, JobReplyText::Recognized(outcome)) => JobText {
            stage: JobStage::RemoveAudio,
            result: Some(trimmed_outcome(outcome)),
            ..job
        },
        (JobStage::RemoveAudio, JobReplyText::Removed) => JobText {
            stage: JobStage::Finished,
            ..job
        },
        _ => job,
    }
}

/// The job after every reply of a sequence.
pub open spec fn job_after_all(job: JobText, replies: Seq<JobReplyText>) -> JobText
    decreases replies.len(),
{
    if replies.len() == 0 {
        job
    } else {
        job_after(job_after_all(job, replies.drop_last()), replies.last())
    }
}

impl Job {
    /// A job that has something left to do has samples and a rate.
    #[verifier::type_invariant]
    spec fn has_audio(self) -> bool {
        self.stage != JobStage::Finished ==> self.sample_count > 0 && self.sample_rate > 0
    }

    /// A job for `sample_count` samples at `sample_rate`.
    pub fn new(sample_count: usize, sample_rate: u32) -> (job: Job)
        ensures
            job@ == new_job(sample_count as nat, sample_rate as nat),
    {
        if sample_rate == 0 {
            return Job {
                stage: JobStage::Finished,
                sample_count,
                sample_rate,
                result: Some(
                    Err("Apple Speech transcription requires a positive sample rate.".to_owned()),
                ),
            };
        }
        if sample_count == 0 {
            return Job {
                stage: JobStage::Finished,
                sample_count,
                sample_rate,
                result: Some(Ok(String::new())),
            };
        }
        Job { stage: JobStage::WriteAudio, sample_count, sample_rate, result: None }
    }

    /// What is to be done next.
    pub fn stage(&self) -> (stage: JobStage)
        ensures
            stage == self@.stage,
    {
        self.stage
    }

    /// How long recognition may take, for a job that has something left to do.
    pub fn timeout(&self) -> (d: Duration)
        requires
            self@.stage != JobStage::Finished,
        ensures
            d == timeout::timeout_duration(self@.sample_count, self@.sample_rate),
    {
        proof {
            use_type_invariant(self);
        }
        recognition_timeout(self.sample_count, self.sample_rate)
    }

    /// The transcript, or the reason why there is none.
    pub fn into_result(self) -> (result: Outcome)
        ensures
            recognition::outcome_text(result) == recognition::settled(self@.result),
    {
        settle(self.result)
    }

    /// The job at another stage, with another result.
    fn at(self, stage: JobStage, result: Option<Outcome>) -> (job: Job)
        requires
            self@.stage != JobStage::Finished,
        ensures
            job@ == (JobText { stage, result: recognition::optional_outcome(result), ..self@ }),
    {
        proof {
            use_type_invariant(&self);
        }
        Job { stage, sample_count: self.sample_count, sample_rate: self.sample_rate, result }
    }

    /// Takes in the reply to the stage.
    pub fn advance(self, reply: JobReply) -> (job: Job)
        ensures
            job@ == job_after(self@, reply@),
    {
        match (self.stage, reply) {
            (JobStage::WriteAudio, JobReply::Written(Ok(_))) => self.keeping(JobStage::Recognize),
            (JobStage::WriteAudio, JobReply::Written(Err(message))) => self.at(
                JobStage::Finished,
                Some(Err(message)),
            ),
            (JobStage::Recognize, JobReply::Recognized(Ok(transcript))) => self.at(
                JobStage::RemoveAudio,
                Some(Ok(trim(transcript.as_str()).to_owned())),
            ),
            (JobStage::Recognize, JobReply::Recognized(Err(message))) => self.at(
                JobStage::RemoveAudio,
                Some(Err(message)),
            ),
            (JobStage::RemoveAudio, JobReply::Removed) => self.keeping(JobStage::Finished),
            _ => self,
        }
    }

    /// The job at another stage, with the result that it has.
    fn keeping(self, stage: JobStage) -> (job: Job)
        requires
            self@.stage != JobStage::Finished,
        ensures
            job@ == (JobText { stage, ..self@ }),
    {
        proof {
            use_type_invariant(&self);
        }
        Job {
            stage,
            sample_count: self.sample_count,
            sample_rate: self.sample_rate,
            result: self.result,
        }
    }
}

/// The message for a job whose thread failed with `detail`.
pub fn task_failed(detail: &str) -> (message: String)
    ensures
        message@ == "Apple Speech task failed: "@ + detail@,
{
    join("Apple Speech task failed: ", detail)
}

/// A job is about the same audio from beginning to end, and that audio has samples and a rate as
/// long as something is left to do.
pub proof fn law_jobs_keep_their_audio(
    sample_count: nat,
    sample_rate: nat,
    replies: Seq<JobReplyText>,
)
    ensures
        ({
            let job = job_after_all(new_job(sample_count, sample_rate), replies);
            &&& job.sample_count == sample_count
            &&& job.sample_rate == sample_rate
            &&& job.stage != JobStage::Finished ==> sample_count > 0 && sample_rate > 0
        }),
    decreases replies.len(),
{
    if replies.len() > 0 {
        law_jobs_keep_their_audio(sample_count, sample_rate, replies.drop_last());
    }
}

/// A job has a result exactly when it is past recognition, and a transcript among the results is
/// trimmed.
pub proof fn law_results_are_trimmed(
    sample_count: nat,
    sample_rate: nat,
    replies: Seq<JobReplyText>,
)
    ensures
        ({
            let job = job_after_all(new_job(sample_count, sample_rate), replies);
            &&& job.result is Some <==> job.stage == JobStage::RemoveAudio || job.stage
                == JobStage::Finished
            &&& job.result matches Some(Ok(transcript)) ==> text::trimmed(transcript) == transcript
        }),
    decreases replies.len(),
{
    if replies.len() > 0 {
        law_results_are_trimmed(sample_count, sample_rate, replies.drop_last());
        if let JobReplyText::Recognized(Ok(transcript)) = replies.last() {
            text::law_trimming_is_idempotent(transcript);
        }
    }
}

/// Before reply `k` the job was at `stage`, and the reply was `reply`.
pub open spec fn was_told(
    job: JobText,
    replies: Seq<JobReplyText>,
    k: int,
    stage: JobStage,
    reply: JobReplyText,
) -> bool {
    0 <= k < replies.len() && job_after_all(job, replies.take(k)).stage == stage && replies[k]
        == reply
}

/// What a job was told before its last reply it was told.
proof fn lemma_was_told_grows(
    job: JobText,
    replies: Seq<JobReplyText>,
    k: int,
    stage: JobStage,
    reply: JobReplyText,
)
    requires
        replies.len() > 0,
    ensures
        0 <= k < replies.len() - 1 ==> was_told(job, replies.drop_last(), k, stage, reply)
            == was_told(job, replies, k, stage, reply),
{
    if 0 <= k < replies.len() - 1 {
        assert(replies.drop_last().take(k) =~= replies.take(k));
    }
}

/// No audio is left behind: a job that wrote its file and has ended removed it.
pub proof fn law_written_audio_is_removed(
    sample_count: nat,
    sample_rate: nat,
    replies: Seq<JobReplyText>,
    written: int,
)
    requires
        was_told(
            new_job(sample_count, sample_rate),
            replies,
            written,
            JobStage::WriteAudio,
            JobReplyText::Written(Ok(())),
        ),
        job_after_all(new_job(sample_count, sample_rate), replies).stage == JobStage::Finished,
    ensures
        exists|k: int| #[trigger]
            was_told(
                new_job(sample_count, sample_rate),
                replies,
                k,
                JobStage::RemoveAudio,
                JobReplyText::Removed,
            ),
    decreases replies.len(),
{
    let start = new_job(sample_count, sample_rate);
    let front = replies.drop_last();
    assert(front =~= replies.take(replies.len() - 1));
    let before = job_after_all(start, front);
    lemma_was_told_grows(
        start,
        replies,
        written,
        JobStage::WriteAudio,
        JobReplyText::Written(Ok(())),
    );
    if before.stage == JobStage::Finished {
        law_written_audio_is_removed(sample_count, sample_rate, front, written);
        let k = choose|k: int| #[trigger]
            was_told(start, front, k, JobStage::RemoveAudio, JobReplyText::Removed);
        lemma_was_told_grows(start, replies, k, JobStage::RemoveAudio, JobReplyText::Removed);
        assert(was_told(start, replies, k, JobStage::RemoveAudio, JobReplyText::Removed));
    } else if before.stage == JobStage::WriteAudio {
        lemma_written_leaves_the_first_stage(start, front, written);
    } else {
        assert(was_told(
            start,
            replies,
            replies.len() - 1,
            JobStage::RemoveAudio,
            JobReplyText::Removed,
        ));
    }
}

/// A job that has written its file never writes it again.
proof fn lemma_written_leaves_the_first_stage(
    job: JobText,
    replies: Seq<JobReplyText>,
    written: int,
)
    requires
        was_told(
            job,
            replies,
            written,
            JobStage::WriteAudio,
            JobReplyText::Written(Ok(())),
        ),
    ensures
        job_after_all(job, replies).stage != JobStage::WriteAudio,
    decreases replies.len(),
{
    let front = replies.drop_last();
    assert(front =~= replies.take(replies.len() - 1));
    if written < replies.len() - 1 {
        lemma_was_told_grows(
            job,
            replies,
            written,
            JobStage::WriteAudio,
            JobReplyText::Written(Ok(())),
        );
        lemma_written_leaves_the_first_stage(job, front, written);
    }
}

/// Audio without a rate is refused and audio without samples says nothing, both at once; every
/// other audio is to be written first.
pub proof fn law_jobs_begin_with_writing(sample_count: nat, sample_rate: nat)
    ensures
        ({
            let job = new_job(sample_count, sample_rate);
            &&& job.stage == JobStage::WriteAudio <==> sample_count > 0 && sample_rate > 0
            &&& job.stage == JobStage::Finished <==> sample_count == 0 || sample_rate == 0
            &&& sample_count > 0 && sample_rate > 0 ==> job.result is None
            &&& sample_rate == 0 ==> job.result == Some(
                Err::<Seq<char>, Seq<char>>(
                    "Apple Speech transcription requires a positive sample rate."@,
                ),
            )
            &&& sample_rate > 0 && sample_count == 0 ==> job.result == Some(
                Ok::<Seq<char>, Seq<char>>(Seq::empty()),
            )
        }),
{
}

/// A result that is there is never changed by later replies, and an ended job stays ended.
proof fn lemma_job_results_stand(job: JobText, replies: Seq<JobReplyText>)
    requires
        job.result is Some,
        job.stage == JobStage::RemoveAudio || job.stage == JobStage::Finished,
    ensures
        ({
            let end = job_after_all(job, replies);
            &&& end.result == job.result
            &&& end.stage == JobStage::RemoveAudio || end.stage == JobStage::Finished
            &&& job.stage == JobStage::Finished ==> end.stage == JobStage::Finished
        }),
    decreases replies.len(),
{
    if replies.len() > 0 {
        lemma_job_results_stand(job, replies.drop_last());
    }
}

/// Replies can be taken in two parts.
proof fn lemma_job_split(job: JobText, replies: Seq<JobReplyText>, k: int)
    requires
        0 <= k <= replies.len(),
    ensures
        job_after_all(job, replies) == job_after_all(
            job_after_all(job, replies.take(k)),
            replies.skip(k),
        ),
    decreases replies.len(),
{
    if k == replies.len() {
        assert(replies.take(k) =~= replies);
        assert(replies.skip(k).len() == 0);
    } else {
        let front = replies.drop_last();
        lemma_job_split(job, front, k);
        assert(front.take(k) =~= replies.take(k));
        assert(front.skip(k) =~= replies.skip(k).drop_last());
        assert(replies.skip(k).last() == replies.last());
    }
}

/// What a job was told is what it goes on from.
proof fn lemma_told(job: JobText, replies: Seq<JobReplyText>, k: int)
    requires
        0 <= k < replies.len(),
    ensures
        job_after_all(job, replies.take(k + 1)) == job_after(
            job_after_all(job, replies.take(k)),
            replies[k],
        ),
{
    assert(replies.take(k + 1).drop_last() =~= replies.take(k));
    assert(replies.take(k + 1).last() == replies[k]);
}

/// What recognition brought is the result of the job, from then on and whatever follows: the whole
/// transcript but for the white space around it, or the error as it is.
pub proof fn law_result_is_what_was_recognized(
    sample_count: nat,
    sample_rate: nat,
    replies: Seq<JobReplyText>,
    k: int,
    outcome: recognition::OutcomeText,
)
    requires
        was_told(
            new_job(sample_count, sample_rate),
            replies,
            k,
            JobStage::Recognize,
            JobReplyText::Recognized(outcome),
        ),
    ensures
        ({
            let result = job_after_all(new_job(sample_count, sample_rate), replies).result;
            &&& outcome matches Ok(transcript) ==> result == Some(
                Ok::<Seq<char>, Seq<char>>(text::trimmed(transcript)),
            )
            &&& outcome matches Err(message) ==> result == Some(
                Err::<Seq<char>, Seq<char>>(message),
            )
        }),
{
    let start = new_job(sample_count, sample_rate);
    lemma_told(start, replies, k);
    lemma_job_split(start, replies, k + 1);
    lemma_job_results_stand(job_after_all(start, replies.take(k + 1)), replies.skip(k + 1));
}

/// Audio that could not be written ends the job with just that error.
pub proof fn law_unwritten_audio_ends_the_job(
    sample_count: nat,
    sample_rate: nat,
    replies: Seq<JobReplyText>,
    k: int,
    message: Seq<char>,
)
    requires
        was_told(
            new_job(sample_count, sample_rate),
            replies,
            k,
            JobStage::WriteAudio,
            JobReplyText::Written(Err(message)),
        ),
    ensures
        ({
            let end = job_after_all(new_job(sample_count, sample_rate), replies);
            end.stage == JobStage::Finished && end.result == Some(
                Err::<Seq<char>, Seq<char>>(message),
            )
        }),
{
    let start = new_job(sample_count, sample_rate);
    lemma_told(start, replies, k);
    lemma_job_split(start, replies, k + 1);
    lemma_job_results_stand(job_after_all(start, replies.take(k + 1)), replies.skip(k + 1));
}

/// The place of a stage in a job.
pub open spec fn job_rank(stage: JobStage) -> int {
    match stage {
        JobStage::WriteAudio => 0,
        JobStage::Recognize => 1,
        JobStage::RemoveAudio => 2,
        JobStage::Finished => 3,
    }
}

/// The reply that says that the stage is done.
pub open spec fn completes(stage: JobStage, reply: JobReplyText) -> bool {
    match stage {
        JobStage::WriteAudio => reply matches JobReplyText::Written(Ok(_)),
        JobStage::Recognize => reply is Recognized,
        JobStage::RemoveAudio => reply is Removed,
        JobStage::Finished => false,
    }
}

/// A completed stage is followed by the next, and by no other, whatever the audio and whatever was
/// recognized; a failure to write ends the job; any other reply changes nothing.
pub proof fn law_jobs_take_one_step_at_a_time(job: JobText, reply: JobReplyText)
    ensures
        ({
            let after = job_after(job, reply);
            &&& completes(job.stage, reply) ==> job_rank(after.stage) == job_rank(job.stage) + 1
            &&& job.stage == JobStage::WriteAudio && reply is Written && !completes(
                job.stage,
                reply,
            ) ==> after.stage == JobStage::Finished
            &&& !completes(job.stage, reply) && !(job.stage == JobStage::WriteAudio
                && reply is Written) ==> after == job
            &&& !(reply is Recognized) && !(reply is Written) ==> after.result == job.result
            &&& after.sample_count == job.sample_count
            &&& after.sample_rate == job.sample_rate
        }),
{
}

/// A reply is taken as it was given, with nothing left out.
pub proof fn law_job_replies_are_taken_as_given(reply: JobReply)
    ensures
        match reply {
            JobReply::Written(Ok(_)) => reply@ == JobReplyText::Written(Ok(())),
            JobReply::Written(Err(message)) => reply@ == JobReplyText::Written(Err(message@)),
            JobReply::Recognized(Ok(transcript)) => reply@ == JobReplyText::Recognized(
                Ok(transcript@),
            ),
            JobReply::Recognized(Err(message)) => reply@ == JobReplyText::Recognized(
                Err(message@),
            ),
            JobReply::Removed => reply@ is Removed,
        },
{
}

} // verus!
