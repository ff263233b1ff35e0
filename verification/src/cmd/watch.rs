//! The events of a job.

use vstd::prelude::*;

use crate::pb;
use crate::pb::{EventKind, JobStatus};
use crate::views::{copy_opt, copy_opt_text};

verus! {

/// The event that shows what a response tells of a job.
pub open spec fn event_from(q: pb::QueryJobResponseView) -> pb::JobEventView {
    pb::JobEventView {
        job_id: match q.job {
            Some(j) => j.job_id,
            None => Seq::empty(),
        },
        status: match q.job {
            Some(j) => j.status,
            None => JobStatus::Unspecified.code(),
        },
        worker_progress: Seq::empty(),
        aggregated: q.aggregated,
        error: q.error,
        timestamp: 0,
        seq: 0,
        kind: EventKind::StatusChange.code(),
        dirs_scanned: q.dirs_scanned,
        files_scanned: q.files_scanned,
        scan_duration_ms: q.scan_duration_ms,
    }
}

/// The event that shows what a response tells of a job.
pub fn event_from_query(query: &pb::QueryJobResponse) -> (r: pb::JobEvent)
    ensures
        r@ == event_from(query@),
{
    let mut job_id = String::new();
    let mut status: i32 = JobStatus::Unspecified.to_i32();
    assert(job_id@ =~= Seq::<char>::empty());
    if let Some(job) = &query.job {
        job_id = job.job_id.clone();
        status = job.status;
    }
    let r = pb::JobEvent {
        job_id,
        status,
        worker_progress: Vec::new(),
        aggregated: copy_opt(&query.aggregated),
        error: copy_opt_text(&query.error),
        timestamp: 0,
        seq: 0,
        kind: EventKind::StatusChange.to_i32(),
        dirs_scanned: query.dirs_scanned,
        files_scanned: query.files_scanned,
        scan_duration_ms: query.scan_duration_ms,
    };
    assert(r@.worker_progress =~= Seq::<pb::WorkerProgressView>::empty());
    r
}

} // verus!
