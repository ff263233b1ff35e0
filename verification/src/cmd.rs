//! The commands of the command line.

pub mod following;
pub mod list;
pub mod session;
pub mod watch;

use vstd::prelude::*;

use crate::parse::duration::{duration_ms, parse_duration};
use crate::pb;
use crate::pb::JobStatus;
use crate::state::job::is_end;
use crate::views::opt_text;

verus! {

/// Whether a status in a message is one that a job ends with.
pub open spec fn terminal_code(status: i32) -> bool {
    JobStatus::decoded(status) matches Some(s) && is_end(s)
}

/// Whether a status in a message is one that a job ends with.
#[must_use]
pub fn is_terminal_status(status: i32) -> (r: bool)
    ensures
        r == terminal_code(status),
{
    match JobStatus::from_i32(status) {
        Some(JobStatus::Completed) | Some(JobStatus::Failed) | Some(JobStatus::Cancelled) => true,
        _ => false,
    }
}

/// Whether a response tells of a job that has ended.
pub open spec fn tells_of_end(q: pb::QueryJobResponseView) -> bool {
    q.job matches Some(job) && terminal_code(job.status)
}

/// Whether a response tells of a job that has ended.
#[must_use]
pub fn query_is_terminal(query: &pb::QueryJobResponse) -> (r: bool)
    ensures
        r == tells_of_end(query@),
{
    match &query.job {
        Some(job) => is_terminal_status(job.status),
        None => false,
    }
}

/// How often a job is asked for again after its events have stopped.
pub const POLL_ATTEMPTS: u32 = 10;

/// How long is waited before each time, in milliseconds.
pub const POLL_INTERVAL_MS: u64 = 200;

/// What is to be done with a response that came after the events had stopped.
#[derive(Debug, Clone, Copy, PartialEq, Eq, Structural)]
pub enum NextPoll {
    /// The job has ended: the response is the last.
    Finished,
    /// The job is to be asked for again, after [`POLL_INTERVAL_MS`].
    Again,
    /// The job has not ended in time.
    GiveUp,
}

/// Decides on a response that came after `polls` repetitions.
pub fn ensure_terminal_after_stream(query: &pb::QueryJobResponse, polls: u32) -> (r: NextPoll)
    ensures
        r == (if tells_of_end(query@) {
            NextPoll::Finished
        } else if polls < POLL_ATTEMPTS {
            NextPoll::Again
        } else {
            NextPoll::GiveUp
        }),
{
    if query_is_terminal(query) {
        NextPoll::Finished
    } else if polls < POLL_ATTEMPTS {
        NextPoll::Again
    } else {
        NextPoll::GiveUp
    }
}

/// What is said of a job that has not ended in time.
pub open spec fn gave_up_text(job_id: Seq<char>, stream_error: Option<Seq<char>>) -> Seq<char> {
    "WatchJob stream ended before job reached terminal state"@ + (match stream_error {
        Some(e) => "; last stream error: "@ + e,
        None => Seq::empty(),
    }) + "; rerun `cvd-cli watch "@ + job_id + "` to continue"@
}

/// What is said of a job that has not ended in time, where `stream_error` is
/// why its events stopped.
pub fn gave_up_message(job_id: &str, stream_error: &Option<String>) -> (r: String)
    ensures
        r@ == gave_up_text(job_id@, opt_text(*stream_error)),
{
    let mut s = "WatchJob stream ended before job reached terminal state".to_owned();
    let ghost head = s@;
    match stream_error {
        Some(e) => {
            s.push_str("; last stream error: ");
            s.push_str(e.as_str());
            assert(s@ =~= head + ("; last stream error: "@ + e@));
        },
        None => {
            assert(s@ =~= head + Seq::<char>::empty());
        },
    }
    s.push_str("; rerun `cvd-cli watch ");
    s.push_str(job_id);
    s.push_str("` to continue");
    s
}

/// How long a specification asks a job to run, in milliseconds as a signed
/// 64-bit number, which wraps around; zero where it does not say so.
pub open spec fn asked_ms(duration: Seq<char>) -> int {
    match duration_ms(duration) {
        Ok(Some(ms)) => if ms > i64::MAX {
            ms - 0x1_0000_0000_0000_0000
        } else {
            ms as int
        },
        _ => 0,
    }
}

/// How long a specification asks a job to run, in milliseconds.
pub fn total_duration_ms(duration: &str) -> (r: i64)
    ensures
        r == asked_ms(duration@),
{
    match parse_duration(duration) {
        Ok(Some(d)) => {
            let ms: u128 = d.as_millis();
            if ms > i64::MAX as u128 {
                (ms as i128 - 0x1_0000_0000_0000_0000) as i64
            } else {
                ms as i64
            }
        },
        _ => 0,
    }
}

} // verus!
