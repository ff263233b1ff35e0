//! That statuses, kinds of events and phases keep their meaning as numbers and as
//! words.

use vstd::prelude::*;

use crate::cmd::list::{capitals, named_status, status_word};
use crate::cmd::{tells_of_end, terminal_code};
use crate::display::live::kind_text;
use crate::pb;
use crate::pb::{EventKind, JobStatus, WorkerPhase};
use crate::prometheus::status_text;
use crate::text::lowered;

verus! {

/// A status is read back from its number, and no other number stands for it. The
/// numbers go from zero to six, in the order in which a job passes through them.
pub proof fn law_statuses_are_read_back(s: JobStatus, code: i32)
    ensures
        JobStatus::decoded(s.code()) == Some(s),
        JobStatus::decoded(code) == Some(s) ==> code == s.code(),
        JobStatus::decoded(code) is Some <==> 0 <= code <= 6,
        JobStatus::Unspecified.code() == 0,
        JobStatus::Pending.code() < JobStatus::Preparing.code() < JobStatus::Running.code()
            < JobStatus::Completed.code() < JobStatus::Failed.code() < JobStatus::Cancelled.code(),
{
}

/// A kind of event is read back from its number, and no other number stands for
/// it.
pub proof fn law_kinds_are_read_back(k: EventKind, code: i32)
    ensures
        EventKind::decoded(k.code()) == Some(k),
        EventKind::decoded(code) == Some(k) ==> code == k.code(),
        EventKind::decoded(code) is Some <==> 0 <= code <= 4,
        EventKind::Unspecified.code() == 0,
        EventKind::StatusChange.code() < EventKind::Progress.code() < EventKind::Result.code()
            < EventKind::Error.code(),
{
}

/// A phase is read back from its number, and no other number stands for it. The
/// numbers go from zero to six, in the order in which a worker passes through them.
pub proof fn law_phases_are_read_back(p: WorkerPhase, code: i32)
    ensures
        WorkerPhase::decoded(p.code()) == Some(p),
        WorkerPhase::decoded(code) == Some(p) ==> code == p.code(),
        WorkerPhase::decoded(code) is Some <==> 0 <= code <= 6,
        WorkerPhase::Unspecified.code() == 0,
        WorkerPhase::Preparing.code() < WorkerPhase::WaitingStart.code()
            < WorkerPhase::Warmup.code() < WorkerPhase::Measuring.code()
            < WorkerPhase::Cleanup.code() < WorkerPhase::Finished.code(),
{
}

/// A number tells of an end if and only if it is that of a status that a job never
/// leaves.
pub proof fn law_ends_are_told(s: JobStatus, code: i32)
    ensures
        terminal_code(s.code()) <==> s == JobStatus::Completed || s == JobStatus::Failed || s
            == JobStatus::Cancelled,
        terminal_code(code) ==> 4 <= code <= 6,
{
}

/// A response tells of an end if and only if it has a job, and the job has ended.
pub proof fn law_responses_tell_of_ends(q: pb::QueryJobResponseView)
    ensures
        q.job is None ==> !tells_of_end(q),
        q.job matches Some(j) ==> (tells_of_end(q) <==> (j.status == JobStatus::Completed.code()
            || j.status == JobStatus::Failed.code() || j.status == JobStatus::Cancelled.code())),
{
}

/// The words for a status differ only in the case of their letters: what is shown
/// in capitals and what is exposed as a label is one word, and it is read back as
/// the status. No other word names one.
pub proof fn law_status_names_are_read_back(s: JobStatus, word: Seq<char>)
    ensures
        lowered(capitals(s)) == status_text(s),
        s != JobStatus::Unspecified ==> named_status(lowered(capitals(s))) == Some(s),
        named_status(word) == Some(s) ==> word == status_text(s) && s != JobStatus::Unspecified,
        s != JobStatus::Unspecified ==> status_word(s.code()) == capitals(s),
{
    reveal_strlit("PENDING");
    reveal_strlit("pending");
    reveal_strlit("PREPARING");
    reveal_strlit("preparing");
    reveal_strlit("RUNNING");
    reveal_strlit("running");
    reveal_strlit("COMPLETED");
    reveal_strlit("completed");
    reveal_strlit("FAILED");
    reveal_strlit("failed");
    reveal_strlit("CANCELLED");
    reveal_strlit("cancelled");
    reveal_strlit("UNSPECIFIED");
    reveal_strlit("unspecified");
    assert(lowered(capitals(s)) =~= status_text(s));
    if s != JobStatus::Unspecified {
        lemma_names_differ();
    }
}

proof fn lemma_names_differ()
    ensures
        "preparing"@ != "pending"@,
        "running"@ != "pending"@,
        "running"@ != "preparing"@,
        "completed"@ != "pending"@,
        "completed"@ != "preparing"@,
        "completed"@ != "running"@,
        "failed"@ != "pending"@,
        "failed"@ != "preparing"@,
        "failed"@ != "running"@,
        "failed"@ != "completed"@,
        "cancelled"@ != "pending"@,
        "cancelled"@ != "preparing"@,
        "cancelled"@ != "running"@,
        "cancelled"@ != "completed"@,
        "cancelled"@ != "failed"@,
{
    reveal_strlit("pending");
    reveal_strlit("preparing");
    reveal_strlit("running");
    reveal_strlit("completed");
    reveal_strlit("failed");
    reveal_strlit("cancelled");
    assert("pending"@[1] == 'e' && "preparing"@[1] == 'r');
    assert("running"@[0] == 'r' && "failed"@[0] == 'f');
    assert("completed"@[1] == 'o' && "cancelled"@[1] == 'a');
    assert("pending"@[0] == 'p' && "preparing"@[0] == 'p');
    assert("completed"@[0] == 'c' && "cancelled"@[0] == 'c');
}

/// Kinds of events can be told apart as they are shown.
pub proof fn law_kinds_are_told_apart(a: EventKind, b: EventKind)
    requires
        kind_text(a.code()) == kind_text(b.code()),
    ensures
        a == b,
{
    reveal_strlit("STATUS");
    reveal_strlit("PROGRESS");
    reveal_strlit("RESULT");
    reveal_strlit("ERROR");
    reveal_strlit("?");
    assert("STATUS"@[0] == 'S' && "PROGRESS"@[0] == 'P' && "RESULT"@[0] == 'R' && "ERROR"@[0]
        == 'E' && "?"@[0] == '?');
}

} // verus!
