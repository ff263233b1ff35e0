//! The list of jobs.

use vstd::prelude::*;

use crate::pb;
use crate::pb::JobStatus;
use crate::text;
use crate::text::{pad_right, push_padded};
use crate::views::seq_views;

verus! {

/// How many jobs can be asked for.
pub const LIMIT_HARD_CAP: i32 = 1000;

/// A word that names no status, in small letters.
#[derive(Debug, PartialEq, Eq)]
pub struct UnknownStatus {
    pub word: String,
}

impl UnknownStatus {
    /// The error as a message.
    pub fn message(&self) -> (r: String)
        ensures
            r@ == "unknown --status "@ + text::quoted_text(self.word@)
                + "; expected pending/preparing/running/completed/failed/cancelled"@,
    {
        let mut s = "unknown --status ".to_owned();
        s.push_str(text::quoted(self.word.as_str()).as_str());
        s.push_str("; expected pending/preparing/running/completed/failed/cancelled");
        s
    }
}

/// The status that a word in small letters names.
pub open spec fn named_status(word: Seq<char>) -> Option<JobStatus> {
    if word == "pending"@ {
        Some(JobStatus::Pending)
    } else if word == "preparing"@ {
        Some(JobStatus::Preparing)
    } else if word == "running"@ {
        Some(JobStatus::Running)
    } else if word == "completed"@ {
        Some(JobStatus::Completed)
    } else if word == "failed"@ {
        Some(JobStatus::Failed)
    } else if word == "cancelled"@ {
        Some(JobStatus::Cancelled)
    } else {
        None
    }
}

/// The status that a word names, in letters of either case.
pub fn parse_status(s: &str) -> (r: Result<JobStatus, UnknownStatus>)
    ensures
        match r {
            Ok(status) => named_status(text::lowered(s@)) == Some(status),
            Err(e) => named_status(text::lowered(s@)) is None && e.word@ == text::lowered(s@),
        },
{
    let cs = text::chars_of(s);
    let word = text::to_lower(&cs);
    let w = word.as_str();
    if text::str_eq(w, "pending") {
        Ok(JobStatus::Pending)
    } else if text::str_eq(w, "preparing") {
        Ok(JobStatus::Preparing)
    } else if text::str_eq(w, "running") {
        Ok(JobStatus::Running)
    } else if text::str_eq(w, "completed") {
        Ok(JobStatus::Completed)
    } else if text::str_eq(w, "failed") {
        Ok(JobStatus::Failed)
    } else if text::str_eq(w, "cancelled") {
        Ok(JobStatus::Cancelled)
    } else {
        Err(UnknownStatus { word })
    }
}

/// The name of a status, in capitals.
pub open spec fn capitals(status: JobStatus) -> Seq<char> {
    match status {
        JobStatus::Pending => "PENDING"@,
        JobStatus::Preparing => "PREPARING"@,
        JobStatus::Running => "RUNNING"@,
        JobStatus::Completed => "COMPLETED"@,
        JobStatus::Failed => "FAILED"@,
        JobStatus::Cancelled => "CANCELLED"@,
        JobStatus::Unspecified => "UNSPECIFIED"@,
    }
}

/// The name of a status, in capitals.
pub fn status_short(status: JobStatus) -> (r: &'static str)
    ensures
        r@ == capitals(status),
{
    match status {
        JobStatus::Pending => "PENDING",
        JobStatus::Preparing => "PREPARING",
        JobStatus::Running => "RUNNING",
        JobStatus::Completed => "COMPLETED",
        JobStatus::Failed => "FAILED",
        JobStatus::Cancelled => "CANCELLED",
        JobStatus::Unspecified => "UNSPECIFIED",
    }
}

/// The name of the status that a number in a message stands for; a question
/// mark where it stands for none.
pub open spec fn status_word(code: i32) -> Seq<char> {
    match JobStatus::decoded(code) {
        Some(JobStatus::Unspecified) | None => "?"@,
        Some(status) => capitals(status),
    }
}

/// The name of the status that a number in a message stands for.
pub fn status_name(code: i32) -> (r: &'static str)
    ensures
        r@ == status_word(code),
{
    match JobStatus::from_i32(code) {
        Some(JobStatus::Unspecified) | None => "?",
        Some(status) => status_short(status),
    }
}

/// How many jobs are asked for: none where the number is negative, which lets
/// the master choose, and never more than [`LIMIT_HARD_CAP`].
pub fn clamp_limit(limit: i32) -> (r: i32)
    ensures
        r == (if limit < 0 {
            0
        } else if limit > LIMIT_HARD_CAP {
            LIMIT_HARD_CAP
        } else {
            limit
        }),
{
    if limit < 0 {
        0
    } else if limit > LIMIT_HARD_CAP {
        LIMIT_HARD_CAP
    } else {
        limit
    }
}

/// What is said of a limit that is not taken as it is.
pub open spec fn limit_text(limit: i32) -> Option<Seq<char>> {
    if limit < 0 {
        Some(
            "warning: --limit "@ + text::signed_decimal(limit as int)
                + " is negative; using server default (0)"@,
        )
    } else if limit > LIMIT_HARD_CAP {
        Some(
            "warning: --limit "@ + text::signed_decimal(limit as int) + " exceeds "@
                + text::signed_decimal(LIMIT_HARD_CAP as int) + "; clamping"@,
        )
    } else {
        None
    }
}

/// What is said of a limit that is not taken as it is.
pub fn limit_warning(limit: i32) -> (r: Option<String>)
    ensures
        crate::views::opt_text(r) == limit_text(limit),
{
    if limit >= 0 && limit <= LIMIT_HARD_CAP {
        return None;
    }
    let mut s = "warning: --limit ".to_owned();
    s.push_str(text::signed_decimal_of(limit as i64).as_str());
    if limit < 0 {
        s.push_str(" is negative; using server default (0)");
    } else {
        s.push_str(" exceeds ");
        s.push_str(text::signed_decimal_of(LIMIT_HARD_CAP as i64).as_str());
        s.push_str("; clamping");
    }
    Some(s)
}

/// The line that shows a job.
pub open spec fn job_line(job: pb::JobView) -> Seq<char> {
    pad_right(job.job_id, 40) + "  "@ + pad_right(status_word(job.status), 10) + "  "@
        + text::signed_decimal(job.created_at as int)
}

/// The lines that show a list of jobs.
pub open spec fn job_lines(jobs: Seq<pb::JobView>) -> Seq<Seq<char>> {
    if jobs.len() == 0 {
        seq!["(no jobs)"@]
    } else {
        seq![pad_right("JOB_ID"@, 40) + "  "@ + pad_right("STATUS"@, 10) + "  CREATED_AT_MS"@]
            + jobs.map_values(|j: pb::JobView| job_line(j))
    }
}

/// Shows a list of jobs, a line each.
pub fn list_lines(response: &pb::ListJobsResponse) -> (r: Vec<String>)
    ensures
        text::views(r@) == job_lines(response@.jobs),
{
    let mut out: Vec<String> = Vec::new();
    let jobs = &response.jobs;
    if jobs.len() == 0 {
        out.push("(no jobs)".to_owned());
        assert(text::views(out@) =~= job_lines(response@.jobs));
        return out;
    }
    let mut head = String::new();
    push_padded(&mut head, "JOB_ID", 40);
    head.push_str("  ");
    push_padded(&mut head, "STATUS", 10);
    head.push_str("  CREATED_AT_MS");
    proof {
        assert(head@ =~= pad_right("JOB_ID"@, 40) + "  "@ + pad_right("STATUS"@, 10)
            + "  CREATED_AT_MS"@);
    }
    out.push(head);
    let ghost v = response@.jobs;
    let mut i: usize = 0;
    assert(text::views(out@) =~= job_lines(v).take(1));
    while i < jobs.len()
        invariant
            i <= jobs@.len(),
            v == seq_views(jobs@),
            v.len() > 0,
            out@.len() == i + 1,
            text::views(out@) == job_lines(v).take(i as int + 1),
        decreases jobs@.len() - i,
    {
        let job = &jobs[i];
        let mut line = String::new();
        push_padded(&mut line, job.job_id.as_str(), 40);
        line.push_str("  ");
        push_padded(&mut line, status_name(job.status), 10);
        line.push_str("  ");
        line.push_str(text::signed_decimal_of(job.created_at).as_str());
        let ghost l = line@;
        let ghost before = out@;
        proof {
            assert(l =~= job_line(job@));
            assert(job_lines(v)[i as int + 1] == job_line(v[i as int]));
        }
        out.push(line);
        assert(text::views(out@) =~= text::views(before).push(l));
        assert(text::views(out@) =~= job_lines(v).take(i as int + 2));
        i += 1;
    }
    assert(job_lines(v).take(i as int + 1) =~= job_lines(v));
    out
}

} // verus!
