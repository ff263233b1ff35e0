//! Events of jobs, and what else is to be done when a job changes.

pub mod subscriber;

use vstd::prelude::*;

use crate::events::subscriber::SubscriberRegistry;
use crate::pb;
use crate::state::job::{JobRecord, JobView};
use crate::time::Clock;
use crate::views::{copy_map_values, copy_opt, copy_opt_text, values_of};

verus! {

/// What is to be done after a request: to tell the watchers of a job, to close
/// their channels, or to start reading a list of files or directories into a
/// job's queue.
#[derive(Debug)]
pub enum Notice {
    Event(pb::JobEvent),
    End(String),
    ReadManifest { job_id: String, path: String, lists_dirs: bool, loop_files: bool },
}

/// What a [`Notice`] holds.
#[verifier::ext_equal]
pub enum NoticeView {
    Event(pb::JobEventView),
    End(Seq<char>),
    ReadManifest { job_id: Seq<char>, path: Seq<char>, lists_dirs: bool, loop_files: bool },
}

impl View for Notice {
    type V = NoticeView;

    open spec fn view(&self) -> NoticeView {
        match *self {
            Notice::Event(e) => NoticeView::Event(e@),
            Notice::End(id) => NoticeView::End(id@),
            Notice::ReadManifest { job_id, path, lists_dirs, loop_files } => NoticeView::ReadManifest {
                job_id: job_id@,
                path: path@,
                lists_dirs,
                loop_files,
            },
        }
    }
}

/// The event that tells of a job as it is.
pub open spec fn event_of(j: JobView, kind: pb::EventKind, seq: i64, at: Clock) -> pb::JobEventView {
    pb::JobEventView {
        job_id: j.job_id,
        status: j.status.code(),
        worker_progress: values_of(j.progress),
        aggregated: j.aggregated,
        error: j.error,
        timestamp: at.wall_ms,
        seq,
        kind: kind.code(),
        dirs_scanned: j.scan.dirs_scanned,
        files_scanned: j.scan.files_scanned,
        scan_duration_ms: j.scan.scan_duration_ms,
    }
}

/// Tells of a job as it is, under the number `seq`.
pub fn build_event(record: &JobRecord, kind: pb::EventKind, seq: i64, at: &Clock) -> (r: pb::JobEvent)
    ensures
        r@ == event_of(record@, kind, seq, *at),
{
    let (dirs_scanned, files_scanned, scan_duration_ms) = record.manifest_scan_stats.snapshot();
    pb::JobEvent {
        job_id: record.job_id.clone(),
        status: record.status.to_i32(),
        worker_progress: copy_map_values(&record.latest_progress),
        aggregated: copy_opt(&record.aggregated),
        error: copy_opt_text(&record.error),
        timestamp: at.wall_ms,
        seq,
        kind: kind.to_i32(),
        dirs_scanned,
        files_scanned,
        scan_duration_ms,
    }
}

/// Takes the next number for an event that tells of a job as it is.
pub fn emit_for_job(
    event_seq: &mut i64,
    record: &JobRecord,
    kind: pb::EventKind,
    at: &Clock,
) -> (r: Notice)
    ensures
        r@ == NoticeView::Event(event_of(record@, kind, *old(event_seq), *at)),
        *final(event_seq) == crate::state::next_seq(*old(event_seq)),
{
    let seq: i64 = crate::state::take_seq(event_seq);
    Notice::Event(build_event(record, kind, seq, at))
}

/// Tells the watchers of a job that no more events will come.
pub fn finalize_stream(subscribers: &mut SubscriberRegistry, job_id: &str)
    ensures
        final(subscribers)@ == old(subscribers)@.remove(job_id@),
{
    subscribers.terminate(job_id);
}

} // verus!
