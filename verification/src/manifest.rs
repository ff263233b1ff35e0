//! Lists of files for workers to read: where they come from, and the queue
//! that they go through.

pub mod dir_scan;
pub mod file_csv;
pub mod file_reader;
pub mod listing;
pub mod queue;
pub mod scanner;

use vstd::prelude::*;

use crate::events::{emit_for_job, event_of, Notice, NoticeView};
use crate::manifest::queue::{empty_queue, BoundedQueue};
use crate::pb;
use crate::scheduler::release::{release, released};
use crate::service::reply::{no_notices, note};
use crate::state::job::{ended, is_end, JobRecord, JobView};
use crate::state::{next_seq, MasterState, StateView};
use crate::strmap::{keys_of, lemma_put_same, lemma_viewed_keys, lemma_viewed_put, lookup, put};
use crate::time::Clock;
use crate::views::{opt_view, seq_views};

verus! {

/// The list that a job's files come from: its path, whether it lists
/// directories, and whether it is read over and over. A read workload names a
/// list of files or one of directories; a metadata workload may name one of
/// directories.
pub open spec fn source_of(spec: pb::BenchSpecView) -> Option<(Seq<char>, bool, bool)> {
    match spec.read {
        Some(read) => if read.file_manifest.len() > 0 {
            Some((read.file_manifest, false, read.loop_files))
        } else if read.dir_manifest.len() > 0 {
            Some((read.dir_manifest, true, read.loop_files))
        } else {
            None
        },
        None => match spec.metadata {
            Some(meta) => if meta.dir_manifest.len() > 0 {
                Some((meta.dir_manifest, true, false))
            } else {
                None
            },
            None => None,
        },
    }
}

/// The job with an empty queue for its files, where it needs one.
pub open spec fn with_queue(j: JobView, capacity: usize) -> JobView {
    match source_of(j.spec) {
        Some(_) => JobView { file_queue: Some(empty_queue(capacity)), ..j },
        None => j,
    }
}

/// What is to be started for the job: reading its list.
pub open spec fn reading_of(j: JobView) -> Option<NoticeView> {
    match source_of(j.spec) {
        Some((path, lists_dirs, loop_files)) => Some(
            NoticeView::ReadManifest { job_id: j.job_id, path, lists_dirs, loop_files },
        ),
        None => None,
    }
}

fn find_source(spec: &pb::BenchSpec) -> (r: Option<(String, bool, bool)>)
    ensures
        match r {
            Some((p, d, l)) => source_of(spec@) == Some((p@, d, l)),
            None => source_of(spec@) is None,
        },
{
    match &spec.read {
        Some(read) => {
            if !read.file_manifest.as_str().is_empty() {
                Some((read.file_manifest.clone(), false, read.loop_files))
            } else if !read.dir_manifest.as_str().is_empty() {
                Some((read.dir_manifest.clone(), true, read.loop_files))
            } else {
                None
            }
        },
        None => match &spec.metadata {
            Some(meta) => {
                if !meta.dir_manifest.as_str().is_empty() {
                    Some((meta.dir_manifest.clone(), true, false))
                } else {
                    None
                }
            },
            None => None,
        },
    }
}

/// Gives a job that needs one a queue for its files, and says which list is to
/// be read into it.
pub fn start_for_file_queue_job(record: &mut JobRecord, capacity: usize) -> (r: Option<Notice>)
    ensures
        final(record)@ == with_queue(old(record)@, capacity),
        opt_view(r) == reading_of(old(record)@),
{
    match find_source(&record.spec_redacted) {
        Some((path, lists_dirs, loop_files)) => {
            record.file_queue = Some(BoundedQueue::new(capacity));
            Some(
                Notice::ReadManifest {
                    job_id: record.job_id.clone(),
                    path,
                    lists_dirs,
                    loop_files,
                },
            )
        },
        None => None,
    }
}

/// What follows a pass over a list.
#[derive(Debug, Clone, Copy, PartialEq, Eq, Structural)]
pub enum AfterPass {
    /// The reader is to stop: its job has ended.
    Stop,
    /// The list is to be read again.
    Again,
    /// All files are in the queue: `manifest_done` is to be set.
    Done,
}

/// Decides what follows a pass over a list: a cancelled reader stops without
/// having read the list to its end.
pub fn after_pass(cancelled: bool, loop_files: bool) -> (r: AfterPass)
    ensures
        r == (if cancelled {
            AfterPass::Stop
        } else if loop_files {
            AfterPass::Again
        } else {
            AfterPass::Done
        }),
{
    if cancelled {
        AfterPass::Stop
    } else if loop_files {
        AfterPass::Again
    } else {
        AfterPass::Done
    }
}

/// The state after the list of a job could not be read, for `reason`, and what
/// is to be done. A job that has ended stays as it is.
pub open spec fn failed_reading(s: StateView, id: Seq<char>, reason: Seq<char>, at: Clock) -> (
    StateView,
    Seq<NoticeView>,
) {
    match lookup(s.jobs, id) {
        None => (s, Seq::empty()),
        Some(j) => if is_end(j.status) {
            (s, Seq::empty())
        } else {
            let n = ended(j, pb::JobStatus::Failed, Some("manifest reader: "@ + reason), at);
            (
                StateView {
                    jobs: put(s.jobs, id, n),
                    active: released(s.active, keys_of(j.assignments), id),
                    event_seq: next_seq(s.event_seq),
                    ..s
                },
                seq![
                    NoticeView::Event(
                        event_of(n, pb::EventKind::StatusChange, s.event_seq, at),
                    ),
                    NoticeView::End(id),
                ],
            )
        },
    }
}

/// Fails a job whose list could not be read.
pub fn fail_job_due_to_manifest(
    state: &mut MasterState,
    job_id: &str,
    reason: &str,
    at: &Clock,
) -> (r: Vec<Notice>)
    ensures
        (final(state)@, seq_views(r@)) == failed_reading(old(state)@, job_id@, reason@, *at),
        final(state).subscribers == old(state).subscribers,
{
    let ghost s = state@;
    let _ = state.jobs.len();
    let ghost jobs = state.jobs.seq();
    proof {
        lemma_viewed_keys(jobs, job_id@);
    }
    let mut notices = no_notices();
    let record = match state.jobs.get_mut(job_id) {
        Some(record) => record,
        None => {
            return notices;
        },
    };
    if record.is_terminal() {
        let ghost same = *record;
        proof {
            lemma_viewed_put(jobs, job_id@, same);
            lemma_put_same(s.jobs, job_id@);
        }
        return notices;
    }
    let mut m = "manifest reader: ".to_owned();
    m.push_str(reason);
    record.end(pb::JobStatus::Failed, Some(m), at);
    let event = emit_for_job(&mut state.event_seq, record, pb::EventKind::StatusChange, at);
    let workers = record.worker_assignments.keys();
    let ghost done = *record;
    proof {
        lemma_viewed_put(jobs, job_id@, done);
    }
    release(&mut state.worker_active_jobs, &workers, job_id);
    note(&mut notices, event);
    note(&mut notices, Notice::End(job_id.to_owned()));
    proof {
        let want = failed_reading(s, job_id@, reason@, *at);
        assert(seq_views(notices@) =~= want.1);
        assert(state@ =~= want.0);
    }
    notices
}

} // verus!
