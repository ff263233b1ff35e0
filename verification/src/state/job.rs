//! What the master knows of one job.

use vstd::prelude::*;

use crate::manifest::queue::{BoundedQueue, QueueView};
use crate::metrics::aggregate::{aggregate, summary_of};
use crate::pb;
use crate::strmap::{has_key, keys_distinct, keys_of, lemma_put_facts, put, StrMap, StrSet};
use crate::time::Clock;
use crate::views::{copy_map_values, entry_views, opt_text, opt_view, values_of, Duplicate};

verus! {

/// The place that a worker has in a job, from zero up to its number of
/// workers.
#[derive(Debug, Clone, Copy, PartialEq, Eq, Structural)]
pub struct WorkerAssignment {
    pub worker_index: u32,
}

/// How far the directories of a job were listed.
#[derive(Debug, Clone, Copy, PartialEq, Eq, Default, Structural)]
pub struct ManifestScanStats {
    pub dirs_scanned: i64,
    pub files_scanned: i64,
    pub scan_duration_ms: i64,
}

impl ManifestScanStats {
    /// Counts a file. The counters wrap around.
    pub fn add_file(&mut self)
        ensures
            *final(self) == (ManifestScanStats {
                files_scanned: old(self).files_scanned.wrapping_add(1),
                ..*old(self)
            }),
    {
        self.files_scanned = self.files_scanned.wrapping_add(1);
    }

    /// Counts a directory.
    pub fn add_dir(&mut self)
        ensures
            *final(self) == (ManifestScanStats {
                dirs_scanned: old(self).dirs_scanned.wrapping_add(1),
                ..*old(self)
            }),
    {
        self.dirs_scanned = self.dirs_scanned.wrapping_add(1);
    }

    /// Adds the time that a pass took, at most what fits in 64 bits.
    pub fn add_elapsed_ms(&mut self, elapsed_ms: u128)
        ensures
            *final(self) == (ManifestScanStats {
                scan_duration_ms: old(self).scan_duration_ms.wrapping_add(
                    if elapsed_ms > i64::MAX {
                        i64::MAX
                    } else {
                        elapsed_ms as i64
                    },
                ),
                ..*old(self)
            }),
    {
        let ms: i64 = if elapsed_ms > i64::MAX as u128 {
            i64::MAX
        } else {
            elapsed_ms as i64
        };
        self.scan_duration_ms = self.scan_duration_ms.wrapping_add(ms);
    }

    /// Directories, files and milliseconds.
    pub fn snapshot(&self) -> (r: (i64, i64, i64))
        ensures
            r == (self.dirs_scanned, self.files_scanned, self.scan_duration_ms),
    {
        (self.dirs_scanned, self.files_scanned, self.scan_duration_ms)
    }
}

/// A job: what was asked for, where it is in its life, and what its workers
/// reported.
pub struct JobRecord {
    pub job_id: String,
    pub spec_redacted: pb::BenchSpec,
    pub credentials: Option<pb::S3CredentialMaterial>,
    pub status: pb::JobStatus,
    pub created_at_ms: i64,
    pub error: Option<String>,
    pub mount_point: String,
    pub target_workers: u32,
    pub worker_assignments: StrMap<WorkerAssignment>,
    /// The workers that take part, fixed when all places are taken.
    pub run_workers: StrSet,
    pub ready_workers: StrSet,
    pub start_at_ms: i64,
    pub worker_results: StrMap<pb::WorkerResult>,
    /// When each worker was last heard of, in nanoseconds of the running clock.
    pub worker_last_seen: StrMap<u128>,
    pub preparing_since: Option<u128>,
    pub latest_progress: StrMap<pb::WorkerProgress>,
    pub aggregated: Option<pb::AggregatedMetrics>,
    pub window_misaligned: bool,
    pub missing_histogram_count: usize,
    pub success_worker_count: usize,
    pub terminal_at_ms: Option<i64>,
    pub file_queue: Option<BoundedQueue<pb::FileEntry>>,
    /// Set when the job ends: whoever fills the queue is to stop.
    pub cancel_flag: bool,
    /// Set when the list of files has been read to its end.
    pub manifest_done: bool,
    pub manifest_scan_stats: ManifestScanStats,
}

/// What a [`JobRecord`] holds.
#[verifier::ext_equal]
pub struct JobView {
    pub job_id: Seq<char>,
    pub spec: pb::BenchSpecView,
    pub credentials: Option<pb::S3CredentialMaterialView>,
    pub status: pb::JobStatus,
    pub created_at_ms: i64,
    pub error: Option<Seq<char>>,
    pub mount_point: Seq<char>,
    pub target_workers: u32,
    pub assignments: Seq<(Seq<char>, WorkerAssignment)>,
    pub run_workers: Seq<Seq<char>>,
    pub ready_workers: Set<Seq<char>>,
    pub start_at_ms: i64,
    pub results: Seq<(Seq<char>, pb::WorkerResultView)>,
    pub last_seen: Map<Seq<char>, u128>,
    pub preparing_since: Option<u128>,
    pub progress: Seq<(Seq<char>, pb::WorkerProgressView)>,
    pub aggregated: Option<pb::AggregatedMetricsView>,
    pub window_misaligned: bool,
    pub missing_histogram_count: nat,
    pub success_worker_count: nat,
    pub terminal_at_ms: Option<i64>,
    pub file_queue: Option<QueueView<pb::FileEntry>>,
    pub cancel_flag: bool,
    pub manifest_done: bool,
    pub scan: ManifestScanStats,
}

impl View for JobRecord {
    type V = JobView;

    open spec fn view(&self) -> JobView {
        JobView {
            job_id: self.job_id@,
            spec: self.spec_redacted@,
            credentials: opt_view(self.credentials),
            status: self.status,
            created_at_ms: self.created_at_ms,
            error: opt_text(self.error),
            mount_point: self.mount_point@,
            target_workers: self.target_workers,
            assignments: self.worker_assignments.seq(),
            run_workers: self.run_workers.seq(),
            ready_workers: self.ready_workers@,
            start_at_ms: self.start_at_ms,
            results: entry_views(self.worker_results.seq()),
            last_seen: self.worker_last_seen@,
            preparing_since: self.preparing_since,
            progress: entry_views(self.latest_progress.seq()),
            aggregated: opt_view(self.aggregated),
            window_misaligned: self.window_misaligned,
            missing_histogram_count: self.missing_histogram_count as nat,
            success_worker_count: self.success_worker_count as nat,
            terminal_at_ms: self.terminal_at_ms,
            file_queue: opt_view(self.file_queue),
            cancel_flag: self.cancel_flag,
            manifest_done: self.manifest_done,
            scan: self.manifest_scan_stats,
        }
    }
}

/// Whether a status is one that a job ends with.
pub open spec fn is_end(status: pb::JobStatus) -> bool {
    status == pb::JobStatus::Completed || status == pb::JobStatus::Failed || status
        == pb::JobStatus::Cancelled
}

/// A new job.
pub open spec fn new_job(
    job_id: Seq<char>,
    spec: pb::BenchSpecView,
    credentials: Option<pb::S3CredentialMaterialView>,
    mount_point: Seq<char>,
    target_workers: u32,
    created_at_ms: i64,
) -> JobView {
    JobView {
        job_id,
        spec,
        credentials,
        status: pb::JobStatus::Pending,
        created_at_ms,
        error: None,
        mount_point,
        target_workers,
        assignments: Seq::empty(),
        run_workers: Seq::empty(),
        ready_workers: Set::empty(),
        start_at_ms: 0,
        results: Seq::empty(),
        last_seen: Map::empty(),
        preparing_since: None,
        progress: Seq::empty(),
        aggregated: None,
        window_misaligned: false,
        missing_histogram_count: 0,
        success_worker_count: 0,
        terminal_at_ms: None,
        file_queue: None,
        cancel_flag: false,
        manifest_done: false,
        scan: ManifestScanStats { dirs_scanned: 0, files_scanned: 0, scan_duration_ms: 0 },
    }
}

/// How many places are taken.
pub open spec fn filled(j: JobView) -> u32 {
    if j.assignments.len() > u32::MAX {
        u32::MAX
    } else {
        j.assignments.len() as u32
    }
}

/// How many places are free.
pub open spec fn remaining(j: JobView) -> u32 {
    if filled(j) >= j.target_workers {
        0
    } else {
        (j.target_workers - filled(j)) as u32
    }
}

/// How many workers take part, or have a place while others are missing.
pub open spec fn worker_count(j: JobView) -> nat {
    if j.run_workers.len() == 0 {
        j.assignments.len()
    } else {
        j.run_workers.len()
    }
}

/// The job after a sign of life of a worker.
pub open spec fn touched(j: JobView, worker: Seq<char>, at: Clock) -> JobView {
    JobView { last_seen: j.last_seen.insert(worker, at.mono_ns), ..j }
}

/// The job after a worker got the next place.
pub open spec fn assigned(j: JobView, worker: Seq<char>, at: Clock) -> JobView {
    touched(
        JobView {
            assignments: put(j.assignments, worker, WorkerAssignment { worker_index: filled(j) }),
            ..j
        },
        worker,
        at,
    )
}

/// The job once all places are taken: its workers are fixed. Only a pending
/// job changes.
pub open spec fn preparing(j: JobView, at: Clock) -> JobView {
    if j.status == pb::JobStatus::Pending {
        JobView {
            run_workers: keys_of(j.assignments),
            preparing_since: Some(at.mono_ns),
            status: pb::JobStatus::Preparing,
            ..j
        }
    } else {
        j
    }
}

/// The job with its queue closed and whoever fills it told to stop.
pub open spec fn cleaned(j: JobView) -> JobView {
    JobView {
        cancel_flag: true,
        file_queue: match j.file_queue {
            Some(q) => Some(QueueView { closed: true, ..q }),
            None => None,
        },
        ..j
    }
}

/// The job with the results of its workers put together; the first time this
/// is done is when it ended.
pub open spec fn summed_up(j: JobView, at: Clock) -> JobView {
    let s = summary_of(values_of(j.results));
    JobView {
        aggregated: Some(s.aggregated),
        window_misaligned: s.window_misaligned,
        missing_histogram_count: s.missing_histogram_count,
        success_worker_count: s.success_worker_count,
        terminal_at_ms: match j.terminal_at_ms {
            Some(t) => Some(t),
            None => Some(at.wall_ms),
        },
        ..j
    }
}

/// The job ended with `status`, for the reason `error`.
pub open spec fn ended(j: JobView, status: pb::JobStatus, error: Option<Seq<char>>, at: Clock) -> JobView {
    cleaned(summed_up(JobView { status, error, ..j }, at))
}

/// The job as clients see it.
pub open spec fn job_message(j: JobView) -> pb::JobView {
    pb::JobView {
        job_id: j.job_id,
        spec: Some(j.spec),
        status: j.status.code(),
        created_at: j.created_at_ms,
    }
}

/// What becomes of a job when a worker asks for a place in it, and the place
/// that the worker gets: the next one, where one is left.
pub open spec fn asked_for_place(j: JobView, worker: Seq<char>, at: Clock) -> (
    JobView,
    Option<WorkerAssignment>,
) {
    if remaining(j) == 0 {
        (j, None)
    } else {
        (
            assigned(j, worker, at),
            Some(WorkerAssignment { worker_index: filled(j) }),
        )
    }
}

/// What becomes of a job when workers ask for places in it one after another.
pub open spec fn asked_by_all(j: JobView, workers: Seq<(Seq<char>, Clock)>) -> JobView
    decreases workers.len(),
{
    if workers.len() == 0 {
        j
    } else {
        let (w, at) = workers.last();
        asked_for_place(asked_by_all(j, workers.drop_last()), w, at).0
    }
}

impl JobRecord {
    /// A new job, which waits for workers.
    pub fn new(
        job_id: String,
        spec_redacted: pb::BenchSpec,
        credentials: Option<pb::S3CredentialMaterial>,
        mount_point: String,
        target_workers: u32,
        created_at_ms: i64,
    ) -> (r: JobRecord)
        ensures
            r@ == new_job(
                job_id@,
                spec_redacted@,
                opt_view(credentials),
                mount_point@,
                target_workers,
                created_at_ms,
            ),
    {
        let r = JobRecord {
            job_id,
            spec_redacted,
            credentials,
            status: pb::JobStatus::Pending,
            created_at_ms,
            error: None,
            mount_point,
            target_workers,
            worker_assignments: StrMap::new(),
            run_workers: StrSet::new(),
            ready_workers: StrSet::new(),
            start_at_ms: 0,
            worker_results: StrMap::new(),
            worker_last_seen: StrMap::new(),
            preparing_since: None,
            latest_progress: StrMap::new(),
            aggregated: None,
            window_misaligned: false,
            missing_histogram_count: 0,
            success_worker_count: 0,
            terminal_at_ms: None,
            file_queue: None,
            cancel_flag: false,
            manifest_done: false,
            manifest_scan_stats: ManifestScanStats {
                dirs_scanned: 0,
                files_scanned: 0,
                scan_duration_ms: 0,
            },
        };
        assert(r@ =~= new_job(
            job_id@,
            spec_redacted@,
            opt_view(credentials),
            mount_point@,
            target_workers,
            created_at_ms,
        ));
        r
    }

    /// The job as clients see it.
    pub fn to_pb_job(&self) -> (r: pb::Job)
        ensures
            r@ == job_message(self@),
    {
        pb::Job {
            job_id: self.job_id.clone(),
            spec: Some(self.spec_redacted.copy()),
            status: self.status.to_i32(),
            created_at: self.created_at_ms,
        }
    }

    /// Whether the job has ended.
    pub fn is_terminal(&self) -> (r: bool)
        ensures
            r == is_end(self@.status),
    {
        self.status == pb::JobStatus::Completed || self.status == pb::JobStatus::Failed
            || self.status == pb::JobStatus::Cancelled
    }

    /// How many places are taken.
    pub fn slots_filled(&self) -> (r: u32)
        ensures
            r == filled(self@),
    {
        let n: usize = self.worker_assignments.len();
        if n as u64 > u32::MAX as u64 {
            u32::MAX
        } else {
            n as u32
        }
    }

    /// How many places are free.
    pub fn slots_remaining(&self) -> (r: u32)
        ensures
            r == remaining(self@),
    {
        let n: u32 = self.slots_filled();
        if n >= self.target_workers {
            0
        } else {
            self.target_workers - n
        }
    }

    /// How many workers take part, or have a place while others are missing.
    pub fn run_worker_count(&self) -> (r: usize)
        ensures
            r == worker_count(self@),
    {
        let n: usize = self.run_workers.len();
        if n == 0 {
            self.worker_assignments.len()
        } else {
            n
        }
    }

    /// Notes a sign of life of a worker.
    pub fn touch(&mut self, worker_id: &str, at: &Clock)
        ensures
            final(self)@ == touched(old(self)@, worker_id@, *at),
    {
        self.worker_last_seen.insert(worker_id.to_owned(), at.mono_ns);
    }

    /// Gives the next place to a worker, where one is free.
    pub fn try_assign(&mut self, worker_id: &str, at: &Clock) -> (r: Option<WorkerAssignment>)
        ensures
            (final(self)@, r) == asked_for_place(old(self)@, worker_id@, *at),
    {
        if self.slots_remaining() == 0 {
            return None;
        }
        let assignment = WorkerAssignment { worker_index: self.slots_filled() };
        self.worker_assignments.insert(worker_id.to_owned(), assignment);
        self.touch(worker_id, at);
        Some(assignment)
    }

    /// Fixes the workers of a pending job and lets it prepare.
    pub fn enter_preparing(&mut self, at: &Clock)
        ensures
            final(self)@ == preparing(old(self)@, *at),
    {
        if self.status != pb::JobStatus::Pending {
            return;
        }
        self.run_workers = self.worker_assignments.key_set();
        self.preparing_since = Some(at.mono_ns);
        self.status = pb::JobStatus::Preparing;
    }

    /// Closes the queue and tells whoever fills it to stop. Doing so twice is
    /// doing so once.
    pub fn cleanup_on_terminal(&mut self)
        ensures
            final(self)@ == cleaned(old(self)@),
    {
        self.cancel_flag = true;
        if let Some(q) = &mut self.file_queue {
            q.close();
        }
    }

    /// Puts the results of the workers together.
    pub fn sum_up(&mut self, at: &Clock)
        ensures
            final(self)@ == summed_up(old(self)@, *at),
    {
        let workers = copy_map_values(&self.worker_results);
        let summary = aggregate(workers.as_slice());
        self.aggregated = Some(summary.aggregated);
        self.window_misaligned = summary.window_misaligned;
        self.missing_histogram_count = summary.missing_histogram_count;
        self.success_worker_count = summary.success_worker_count;
        if self.terminal_at_ms.is_none() {
            self.terminal_at_ms = Some(at.wall_ms);
        }
    }

    /// Ends the job with `status`, for the reason `error`.
    pub fn end(&mut self, status: pb::JobStatus, error: Option<String>, at: &Clock)
        ensures
            final(self)@ == ended(old(self)@, status, opt_text(error), *at),
    {
        self.status = status;
        self.error = error;
        crate::aggregate::aggregate_into_record(self, at);
        self.cleanup_on_terminal();
    }
}

/// As many workers have a place as have asked, or as there are places, and they
/// are those who asked first.
proof fn lemma_asked_by_all(j: JobView, workers: Seq<(Seq<char>, Clock)>)
    requires
        j.assignments.len() == 0,
        keys_distinct(workers),
    ensures
        ({
            let k = asked_by_all(j, workers);
            &&& k.target_workers == j.target_workers
            &&& keys_distinct(k.assignments)
            &&& k.assignments.len() == (if workers.len() < j.target_workers {
                workers.len() as int
            } else {
                j.target_workers as int
            })
            &&& forall|i: int|
                0 <= i < k.assignments.len() ==> (#[trigger] k.assignments[i]).0 == workers[i].0
                    && k.assignments[i].1.worker_index == i
        }),
    decreases workers.len(),
{
    if workers.len() > 0 {
        let head = workers.drop_last();
        let before = asked_by_all(j, head);
        let (w, at) = workers.last();
        assert forall|a: int, b: int| 0 <= a < b < head.len() implies #[trigger] head[a].0
            != #[trigger] head[b].0 by {
            assert(workers[a].0 != workers[b].0);
        }
        lemma_asked_by_all(j, head);
        if remaining(before) > 0 {
            let v = WorkerAssignment { worker_index: filled(before) };
            if has_key(before.assignments, w) {
                let i = choose|i: int|
                    0 <= i < before.assignments.len() && #[trigger] before.assignments[i].0 == w;
                assert(workers[i].0 != workers[workers.len() - 1].0);
            }
            lemma_put_facts(before.assignments, w, v);
            let k = asked_by_all(j, workers);
            assert(k.assignments =~= before.assignments.push((w, v)));
            assert forall|i: int| 0 <= i < k.assignments.len() implies (#[trigger]
            k.assignments[i]).0 == workers[i].0 && k.assignments[i].1.worker_index == i by {
                if i < before.assignments.len() {
                    assert(k.assignments[i] == before.assignments[i]);
                    assert(head[i] == workers[i]);
                }
            }
        } else {
            assert forall|i: int| 0 <= i < before.assignments.len() implies (#[trigger]
            before.assignments[i]).0 == workers[i].0 by {
                assert(head[i] == workers[i]);
            }
        }
    } else {
        assert(j.assignments =~= Seq::empty());
    }
}

/// Workers that ask for places in a new job one after another get the places
/// 0, 1, 2 and so on, without a gap, as long as there are places; who asks later
/// gets none and changes nothing. After each call, the places that are filled
/// and those that remain make up all there are.
pub proof fn law_places_are_handed_out_in_order(
    j: JobView,
    workers: Seq<(Seq<char>, Clock)>,
    i: int,
)
    requires
        j.assignments.len() == 0,
        keys_distinct(workers),
        0 <= i < workers.len(),
    ensures
        ({
            let before = asked_by_all(j, workers.take(i));
            let (w, at) = workers[i];
            let (later, place) = asked_for_place(before, w, at);
            let n = j.target_workers;
            &&& later == asked_by_all(j, workers.take(i + 1))
            &&& i < n ==> place == Some(WorkerAssignment { worker_index: i as u32 })
            &&& i >= n ==> place is None && later == before
            &&& later.assignments.len() <= n
            &&& forall|k: int|
                0 <= k < later.assignments.len() ==> (#[trigger] later.assignments[k]).0
                    == workers[k].0 && later.assignments[k].1.worker_index == k
            &&& filled(before) + remaining(before) == n
            &&& filled(later) + remaining(later) == n
        }),
{
    let seen = workers.take(i);
    let next = workers.take(i + 1);
    assert(next.drop_last() =~= seen);
    assert(next.last() == workers[i]);
    assert forall|a: int, b: int| 0 <= a < b < next.len() implies #[trigger] next[a].0
        != #[trigger] next[b].0 by {
        assert(workers[a].0 != workers[b].0);
    }
    assert forall|a: int, b: int| 0 <= a < b < seen.len() implies #[trigger] seen[a].0
        != #[trigger] seen[b].0 by {
        assert(workers[a].0 != workers[b].0);
    }
    lemma_asked_by_all(j, seen);
    lemma_asked_by_all(j, next);
}

} // verus!
