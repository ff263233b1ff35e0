//! What a client does that follows a job: it shows what it is told, asks when it is
//! told nothing more, and stops when the job has ended or it is told to.

use vstd::prelude::*;

use crate::cmd::list::{job_lines, limit_text, status_word, LIMIT_HARD_CAP};
use crate::cmd::session::{
    looked, reacted, HappeningView, Progress, ReactionView, SessionView,
};
use crate::cmd::watch::event_from;
use crate::cmd::POLL_ATTEMPTS;
use crate::display::live::{after_event, LiveView};
use crate::pb;
use crate::pb::JobStatus;
use crate::signal::CtrlCAction;
use crate::text::signed_decimal;
use crate::time::Clock;

verus! {

/// Whether two seconds have passed since a sample was last shown, or none was.
pub open spec fn is_due(d: LiveView, at: Clock) -> bool {
    d.last_render matches Some(t) ==> at.mono_ns - t >= 2_000_000_000
}

/// Whether a response tells of a job that has ended.
pub open spec fn has_ended(q: pb::QueryJobResponseView) -> bool {
    q.job matches Some(j) && (j.status == JobStatus::Completed.code() || j.status
        == JobStatus::Failed.code() || j.status == JobStatus::Cancelled.code())
}

/// While it follows events, a client takes each of them into what it shows, and
/// shows a sample when it is time for one; with an event and without.
pub proof fn law_events_are_shown_in_time(s: SessionView, e: pb::JobEventView, at: Clock)
    requires
        s.progress == Progress::Following,
    ensures
        ({
            let (t, r) = reacted(s, HappeningView::Event(e), at);
            &&& t.display == after_event(s.display, e)
            &&& t.progress == Progress::Following
            &&& t.job_id == s.job_id
            &&& t.stream_error == s.stream_error
            &&& r == if is_due(s.display, at) {
                ReactionView::Render
            } else {
                ReactionView::Wait
            }
        }),
        reacted(s, HappeningView::Tick, at).0 == s,
        is_due(s.display, at) <==> reacted(s, HappeningView::Tick, at).1 == ReactionView::Render,
        !is_due(s.display, at) <==> reacted(s, HappeningView::Tick, at).1 == ReactionView::Wait,
{
}

/// When it is interrupted, a client stops if it is told to detach, and the job goes
/// on. Else the job is cancelled, and the client waits to see it end.
pub proof fn law_interrupts_are_obeyed(s: SessionView, a: CtrlCAction, at: Clock)
    requires
        s.progress == Progress::Following,
    ensures
        a == CtrlCAction::Detach ==> reacted(s, HappeningView::Interrupt(a), at).1
            == ReactionView::Detach && reacted(s, HappeningView::Interrupt(a), at).0.progress
            == Progress::Over,
        a != CtrlCAction::Detach ==> reacted(s, HappeningView::Interrupt(a), at).1
            == ReactionView::Cancel && reacted(s, HappeningView::Interrupt(a), at).0 == s,
{
}

/// When events stop, a client asks for the job, and keeps why they stopped.
pub proof fn law_lost_events_are_asked_for(
    s: SessionView,
    code: Seq<char>,
    message: Seq<char>,
    at: Clock,
)
    requires
        s.progress == Progress::Following,
    ensures
        reacted(s, HappeningView::Closed, at).1 == ReactionView::Ask,
        reacted(s, HappeningView::Closed, at).0.progress == (Progress::Asking { polls: 0 }),
        reacted(s, HappeningView::Closed, at).0.stream_error == s.stream_error,
        reacted(s, HappeningView::Broken { code, message }, at).1 == ReactionView::Ask,
        reacted(s, HappeningView::Broken { code, message }, at).0.progress == (
        Progress::Asking { polls: 0 }),
        reacted(s, HappeningView::Broken { code, message }, at).0.stream_error == Some(
            code + ": "@ + message,
        ),
        reacted(s, HappeningView::Broken { code, message }, at).0.job_id == s.job_id,
{
}

/// A client that asked shows a job that has ended. One that has not it asks for
/// again, some times; after that it gives up, names the job and tells why the
/// events stopped.
pub proof fn law_answers_are_weighed(
    s: SessionView,
    polls: u32,
    q: pb::QueryJobResponseView,
    at: Clock,
)
    requires
        s.progress == (Progress::Asking { polls }),
    ensures
        has_ended(q) ==> reacted(s, HappeningView::Answer(q), at).1 == ReactionView::Show(q)
            && reacted(s, HappeningView::Answer(q), at).0.progress == Progress::Over,
        !has_ended(q) && polls < POLL_ATTEMPTS ==> reacted(
            s,
            HappeningView::Answer(q),
            at,
        ).1 == ReactionView::AskLater,
        !has_ended(q) && polls >= POLL_ATTEMPTS ==> reacted(
            s,
            HappeningView::Answer(q),
            at,
        ).1 == ReactionView::GiveUp(
            "WatchJob stream ended before job reached terminal state"@ + (match s.stream_error {
                Some(e) => "; last stream error: "@ + e,
                None => Seq::empty(),
            }) + "; rerun `cvd-cli watch "@ + s.job_id + "` to continue"@,
        ) && reacted(s, HappeningView::Answer(q), at).0.progress == Progress::Over,
{
}

/// A client that has stopped does nothing more.
pub proof fn law_nothing_follows_the_end(s: SessionView, h: HappeningView, at: Clock)
    requires
        s.progress == Progress::Over,
    ensures
        reacted(s, h, at).0 == s,
        reacted(s, h, at).1 == ReactionView::Wait,
{
}

/// The first look at a job tells whether it has ended.
pub proof fn law_first_look_tells_the_end(q: pb::QueryJobResponseView)
    ensures
        looked(Some(q)).ended == has_ended(q),
        !looked(None).ended,
        looked(None).total_ms == 0,
        q.job is None ==> looked(Some(q)).total_ms == 0,
{
}

/// The event that stands for a response tells the same of the job.
pub proof fn law_responses_are_shown_as_events(q: pb::QueryJobResponseView)
    ensures
        q.job matches Some(j) ==> event_from(q).job_id == j.job_id && event_from(q).status
            == j.status,
        event_from(q).aggregated == q.aggregated,
        event_from(q).error == q.error,
        event_from(q).dirs_scanned == q.dirs_scanned,
        event_from(q).files_scanned == q.files_scanned,
        event_from(q).scan_duration_ms == q.scan_duration_ms,
        event_from(q).worker_progress.len() == 0,
{
}

/// Whether `line` starts with `s`, filled up with spaces to `width` characters.
pub open spec fn has_field(line: Seq<char>, at: int, s: Seq<char>, width: int) -> bool {
    &&& at + s.len() <= line.len()
    &&& line.subrange(at, at + s.len()) == s
    &&& forall|i: int| at + s.len() <= i < at + width && i < line.len() ==> #[trigger] line[i] == ' '
}

/// A list shows each job in a line, in the order in which they come, with its id,
/// its status and when it was created.
pub proof fn law_lists_show_each_job(jobs: Seq<pb::JobView>, n: int)
    requires
        0 <= n < jobs.len(),
    ensures
        job_lines(jobs).len() == jobs.len() + 1,
        has_field(job_lines(jobs)[n + 1], 0, jobs[n].job_id, 40),
        jobs[n].job_id.len() <= 40 ==> has_field(
            job_lines(jobs)[n + 1],
            42,
            status_word(jobs[n].status),
            10,
        ),
        job_lines(jobs)[n + 1].len() >= signed_decimal(jobs[n].created_at as int).len(),
        job_lines(jobs)[n + 1].skip(
            job_lines(jobs)[n + 1].len() - signed_decimal(jobs[n].created_at as int).len(),
        ) == signed_decimal(jobs[n].created_at as int),
{
    reveal_strlit("  ");
    let line = job_lines(jobs)[n + 1];
    let id = jobs[n].job_id;
    let word = status_word(jobs[n].status);
    let number = signed_decimal(jobs[n].created_at as int);
    assert(line.subrange(0, id.len() as int) =~= id);
    if id.len() <= 40 {
        assert(line.subrange(42, 42int + word.len()) =~= word);
    }
    assert(line.skip(line.len() - number.len()) =~= number);
}

/// A limit is warned of if and only if it is not taken as it is.
pub proof fn law_limits_are_warned_of(limit: i32)
    ensures
        limit_text(limit) is Some <==> !(0 <= limit <= LIMIT_HARD_CAP),
{
}

} // verus!
