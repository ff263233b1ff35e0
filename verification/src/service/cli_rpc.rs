//! What clients ask: to create, watch, query, cancel and list jobs.

use vstd::prelude::*;

use crate::events::subscriber::{joined_by, open_with, opened, EventReceiver, EventSender};
use crate::events::{build_event, emit_for_job, event_of, Notice, NoticeView};
use crate::id::{hyphenated_uuid, random_job_id};
use crate::pb;
use crate::scheduler::release::{release, released};
use crate::service::error::{Code, Refusal, ServiceError};
use crate::service::reply::{no_notices, note, refused, replies, replies_view, unchanged, Reply, Step};
use crate::spec::redact::{extract_credentials, redact_in_place, redacted_view, secrets_of};
use crate::spec::validate::{default_context, report_text, validate, violations, ValidationContext};
use crate::spec::{
    convert_fault_text, is_fault_of, is_spec_of, BenchSpec, ConvertFault, ReadSource,
};
use crate::state::job::{ended, is_end, job_message, new_job, worker_count, JobRecord, JobView};
use crate::state::{next_seq, pending, MasterState, StateView};
use crate::strmap::{
    keys_of, lemma_put_same, lemma_viewed_keys, lemma_viewed_put, lookup, put, StrMap,
};
use crate::text;
use crate::time::Clock;
use crate::views::{copy_map_values, copy_opt, copy_opt_text, seq_views, values_of, Duplicate};

verus! {

/// What was found at a path that is to be a list of files or directories.
#[derive(Debug)]
pub enum Probe {
    Readable,
    NotAFile,
    Unreadable(String),
}

/// What was found at `path`; nothing, where nobody looked.
pub open spec fn found_at(probes: Seq<(Seq<char>, Probe)>, path: Seq<char>) -> Probe {
    match lookup(probes, path) {
        Some(p) => p,
        None => Probe::NotAFile,
    }
}

/// What is wrong with the list of the kind `kind` at `path`.
pub open spec fn manifest_problem(
    probes: Seq<(Seq<char>, Probe)>,
    kind: Seq<char>,
    path: Seq<char>,
) -> Option<Seq<char>> {
    match found_at(probes, path) {
        Probe::Readable => None,
        Probe::NotAFile => Some(
            kind + " "@ + text::quoted_text(path) + " does not exist or is not a regular file"@,
        ),
        Probe::Unreadable(e) => Some(
            kind + " "@ + text::quoted_text(path) + " is not readable: "@ + e@,
        ),
    }
}

/// What is wrong with the list that a read workload names.
pub open spec fn read_problem(probes: Seq<(Seq<char>, Probe)>, spec: BenchSpec) -> Option<Seq<char>> {
    match spec.read {
        Some(read) => match read.source {
            ReadSource::FileManifest { path } => manifest_problem(
                probes,
                "file_manifest"@,
                path@,
            ),
            ReadSource::DirManifest { path } => manifest_problem(probes, "dir_manifest"@, path@),
        },
        None => None,
    }
}

/// What is wrong with the list that a metadata workload names.
pub open spec fn metadata_problem(probes: Seq<(Seq<char>, Probe)>, spec: BenchSpec) -> Option<
    Seq<char>,
> {
    match spec.metadata {
        Some(m) => match m.dir_manifest {
            Some(path) => manifest_problem(probes, "metadata.dir_manifest"@, path@),
            None => None,
        },
        None => None,
    }
}

/// What is wrong with the lists that a specification names.
pub open spec fn listing_problem(probes: Seq<(Seq<char>, Probe)>, spec: BenchSpec) -> Option<
    Seq<char>,
> {
    match read_problem(probes, spec) {
        Some(m) => Some(m),
        None => metadata_problem(probes, spec),
    }
}

/// A specification as it is kept: without secrets, and asking for at least one
/// worker.
pub open spec fn stored_spec(p: pb::BenchSpecView) -> pb::BenchSpecView {
    let r = redacted_view(p);
    pb::BenchSpecView {
        target_workers: if r.target_workers <= 0 {
            1
        } else {
            r.target_workers
        },
        ..r
    }
}

/// What happens when a job is to be created for a specification that is read
/// as `spec`: it is refused if it breaks a rule, names a file system that is
/// not known, or a list that cannot be read. Else it waits for workers.
pub open spec fn enqueue(
    s: StateView,
    p: pb::BenchSpecView,
    spec: BenchSpec,
    probes: Seq<(Seq<char>, Probe)>,
    id: Seq<char>,
    at: Clock,
) -> Step<pb::CreateJobResponseView> {
    let broken = violations(spec, default_context());
    if broken.len() > 0 {
        refused(s, Code::FailedPrecondition, "spec validate: "@ + report_text(broken))
    } else {
        match lookup(s.config.filesystems, spec.fs_name@) {
            None => refused(
                s,
                Code::FailedPrecondition,
                "fs_name "@ + text::quoted_text(spec.fs_name@)
                    + " not registered in cvd-master.toml"@,
            ),
            Some(mount) => match listing_problem(probes, spec) {
                Some(m) => refused(s, Code::FailedPrecondition, m),
                None => {
                    let j = new_job(
                        id,
                        stored_spec(p),
                        secrets_of(p),
                        mount,
                        spec.target_workers,
                        at.wall_ms,
                    );
                    Step {
                        state: StateView {
                            jobs: put(s.jobs, id, j),
                            pending: s.pending.push(id),
                            event_seq: next_seq(s.event_seq),
                            ..s
                        },
                        notices: seq![
                            NoticeView::Event(
                                event_of(j, pb::EventKind::StatusChange, s.event_seq, at),
                            ),
                        ],
                        result: Ok(pb::CreateJobResponseView { job_id: id }),
                    }
                },
            },
        }
    }
}

/// Whether a reply, with the state after it, is right for the request to
/// create a job under the id `id`.
pub open spec fn creates(
    r: Reply<pb::CreateJobResponse>,
    after: StateView,
    s: StateView,
    req: pb::CreateJobRequest,
    probes: Seq<(Seq<char>, Probe)>,
    id: Seq<char>,
    at: Clock,
) -> bool {
    match req.spec {
        None => replies_view(
            r,
            after,
            refused(s, Code::InvalidArgument, "CreateJobRequest.spec is required"@),
        ),
        Some(p) => {
            ||| exists|f: ConvertFault|
                #[trigger] is_fault_of(f, p) && replies_view(
                    r,
                    after,
                    refused(s, Code::InvalidArgument, "spec parse: "@ + convert_fault_text(f)),
                )
            ||| exists|spec: BenchSpec|
                #[trigger] is_spec_of(spec, p) && replies_view(
                    r,
                    after,
                    enqueue(s, p@, spec, probes, id, at),
                )
        },
    }
}

fn ensure_readable_manifest(probes: &StrMap<Probe>, kind: &str, path: &str) -> (r: Option<String>)
    ensures
        crate::views::opt_text(r) == manifest_problem(probes.seq(), kind@, path@),
{
    let mut m = kind.to_owned();
    m.push_str(" ");
    m.push_str(text::quoted(path).as_str());
    match probes.get(path) {
        Some(Probe::Readable) => None,
        Some(Probe::Unreadable(e)) => {
            m.push_str(" is not readable: ");
            m.push_str(e.as_str());
            Some(m)
        },
        _ => {
            m.push_str(" does not exist or is not a regular file");
            Some(m)
        },
    }
}

fn check_listings(probes: &StrMap<Probe>, spec: &BenchSpec) -> (r: Option<String>)
    ensures
        crate::views::opt_text(r) == listing_problem(probes.seq(), *spec),
{
    if let Some(read) = &spec.read {
        let problem = match &read.source {
            ReadSource::FileManifest { path } => ensure_readable_manifest(
                probes,
                "file_manifest",
                path.as_str(),
            ),
            ReadSource::DirManifest { path } => ensure_readable_manifest(
                probes,
                "dir_manifest",
                path.as_str(),
            ),
        };
        if problem.is_some() {
            return problem;
        }
    }
    match &spec.metadata {
        Some(m) => match &m.dir_manifest {
            Some(path) => ensure_readable_manifest(probes, "metadata.dir_manifest", path.as_str()),
            None => None,
        },
        None => None,
    }
}

/// The paths of the lists that a specification names, which are to be looked
/// at before a job is created for it.
pub open spec fn listings(p: pb::BenchSpecView) -> Seq<Seq<char>> {
    let read = match p.read {
        Some(r) => seq![r.file_manifest, r.dir_manifest],
        None => Seq::empty(),
    };
    match p.metadata {
        Some(m) => read.push(m.dir_manifest),
        None => read,
    }
}

/// The paths of the lists that a specification names.
pub fn named_listings(p: &pb::BenchSpec) -> (r: Vec<String>)
    ensures
        text::views(r@) == listings(p@),
{
    let mut out: Vec<String> = Vec::new();
    if let Some(read) = &p.read {
        out.push(read.file_manifest.clone());
        out.push(read.dir_manifest.clone());
    }
    if let Some(m) = &p.metadata {
        out.push(m.dir_manifest.clone());
    }
    assert(text::views(out@) =~= listings(p@));
    out
}

/// Creates a job under the id `job_id`, given what was found at the paths that
/// its specification names.
pub fn create_job_as(
    state: &mut MasterState,
    req: pb::CreateJobRequest,
    probes: &StrMap<Probe>,
    job_id: String,
    at: &Clock,
) -> (r: Reply<pb::CreateJobResponse>)
    ensures
        creates(r, final(state)@, old(state)@, req, probes.seq(), job_id@, *at),
        final(state).subscribers == old(state).subscribers,
{
    let ghost s = state@;
    let proto = match req.spec {
        Some(p) => p,
        None => {
            return Reply::refuse(
                ServiceError::new(Code::InvalidArgument, "CreateJobRequest.spec is required"),
            );
        },
    };
    let ghost p = proto;
    let mut stored = proto.copy();
    let typed = match BenchSpec::try_from_proto(proto) {
        Ok(b) => b,
        Err(e) => {
            let mut m = "spec parse: ".to_owned();
            m.push_str(e.message().as_str());
            assert(is_fault_of(e@, p));
            return Reply::refuse(ServiceError::new(Code::InvalidArgument, m.as_str()));
        },
    };
    assert(is_spec_of(typed, p));
    if let Err(report) = validate(&typed, &ValidationContext::default()) {
        let mut m = "spec validate: ".to_owned();
        m.push_str(report.message().as_str());
        return Reply::refuse(ServiceError::new(Code::FailedPrecondition, m.as_str()));
    }
    let _ = state.config.filesystems.len();
    proof {
        lemma_viewed_keys(state.config.filesystems.seq(), typed.fs_name@);
    }
    let mount = match state.config.filesystems.get(typed.fs_name.as_str()) {
        Some(m) => m.clone(),
        None => {
            let mut m = "fs_name ".to_owned();
            m.push_str(text::quoted(typed.fs_name.as_str()).as_str());
            m.push_str(" not registered in cvd-master.toml");
            return Reply::refuse(ServiceError::new(Code::FailedPrecondition, m.as_str()));
        },
    };
    if let Some(m) = check_listings(probes, &typed) {
        return Reply::refuse(ServiceError::new(Code::FailedPrecondition, m.as_str()));
    }
    let credentials = extract_credentials(&stored);
    redact_in_place(&mut stored);
    if stored.target_workers <= 0 {
        stored.target_workers = 1;
    }
    assert(stored@ =~= stored_spec(p@));
    let record = JobRecord::new(
        job_id.clone(),
        stored,
        credentials,
        mount,
        typed.target_workers,
        at.wall_ms,
    );
    let mut notices = no_notices();
    let event = emit_for_job(&mut state.event_seq, &record, pb::EventKind::StatusChange, at);
    note(&mut notices, event);
    let _ = state.jobs.len();
    proof {
        lemma_viewed_put(state.jobs.seq(), job_id@, record);
    }
    state.jobs.insert(job_id.clone(), record);
    pending::push_back(&mut state.pending_queue, job_id.clone());
    let r = Reply { result: Ok(pb::CreateJobResponse { job_id }), notices };
    proof {
        let step = enqueue(s, p@, typed, probes.seq(), job_id@, *at);
        assert(seq_views(r.notices@) =~= step.notices);
        assert(state@ =~= step.state);
    }
    r
}

/// Creates a job under a new id, given what was found at the paths that its
/// specification names.
pub fn create_job(
    state: &mut MasterState,
    req: pb::CreateJobRequest,
    probes: &StrMap<Probe>,
    at: &Clock,
) -> (r: Reply<pb::CreateJobResponse>)
    ensures
        exists|id: Seq<char>|
            #[trigger] hyphenated_uuid(id) && creates(
                r,
                final(state)@,
                old(state)@,
                req,
                probes.seq(),
                id,
                *at,
            ),
        final(state).subscribers == old(state).subscribers,
{
    let id = random_job_id();
    create_job_as(state, req, probes, id, at)
}

/// The refusal of a job that is not known.
pub open spec fn not_found(id: Seq<char>) -> Refusal {
    Refusal {
        code: Code::NotFound,
        message: "job "@ + text::quoted_text(id) + " not found"@,
    }
}

fn job_not_found(id: &str) -> (e: ServiceError)
    ensures
        e@ == not_found(id@),
{
    let mut m = "job ".to_owned();
    m.push_str(text::quoted(id).as_str());
    m.push_str(" not found");
    ServiceError::new(Code::NotFound, m.as_str())
}

/// The first event for a new watcher of a job, which shows the job as it is,
/// and whether the job has ended.
pub fn watch_snapshot(state: &mut MasterState, job_id: &str, at: &Clock) -> (r: Result<
    (pb::JobEvent, bool),
    ServiceError,
>)
    ensures
        match lookup(old(state)@.jobs, job_id@) {
            Some(j) => {
                &&& r matches Ok((e, over)) && e@ == event_of(
                    j,
                    pb::EventKind::StatusChange,
                    old(state)@.event_seq,
                    *at,
                ) && over == is_end(j.status)
                &&& final(state)@ == (StateView {
                    event_seq: next_seq(old(state)@.event_seq),
                    ..old(state)@
                })
            },
            None => r matches Err(e) && e@ == not_found(job_id@) && final(state)@ == old(state)@,
        },
        final(state).subscribers == old(state).subscribers,
{
    let _ = state.jobs.len();
    proof {
        lemma_viewed_keys(state.jobs.seq(), job_id@);
    }
    match state.jobs.get(job_id) {
        None => Err(job_not_found(job_id)),
        Some(record) => {
            let seq: i64 = crate::state::take_seq(&mut state.event_seq);
            let event = build_event(record, pb::EventKind::StatusChange, seq, at);
            Ok((event, record.is_terminal()))
        },
    }
}

/// Whether a request to watch a job was served: the new channel was offered an
/// event that shows the job as it is, and nothing else; unless the job has ended
/// it is one of the job's watchers, after those there were.
pub open spec fn watches(
    r: Result<EventReceiver, ServiceError>,
    s: StateView,
    before: Map<Seq<char>, Seq<EventSender>>,
    after_state: StateView,
    after: Map<Seq<char>, Seq<EventSender>>,
    id: Seq<char>,
    at: Clock,
) -> bool {
    match lookup(s.jobs, id) {
        Some(j) => {
            &&& after_state == (StateView { event_seq: next_seq(s.event_seq), ..s })
            &&& {
                let snapshot = event_of(j, pb::EventKind::StatusChange, s.event_seq, at);
                r matches Ok(rx) && if is_end(j.status) {
                    opened(rx, 1, Some(snapshot)) && after == before
                } else {
                    joined_by(before, id, rx, Some(snapshot), after)
                }
            }
        },
        None => {
            &&& r matches Err(e) && e@ == not_found(id)
            &&& after_state == s
            &&& after == before
        },
    }
}

/// Opens a channel for a watcher of a job. Its first message shows the job as
/// it is; it is the only one where the job has ended.
pub fn watch_job(state: &mut MasterState, req: pb::WatchJobRequest, at: &Clock) -> (r: Result<
    EventReceiver,
    ServiceError,
>)
    ensures
        watches(
            r,
            old(state)@,
            old(state).subscribers@,
            final(state)@,
            final(state).subscribers@,
            req.job_id@,
            *at,
        ),
{
    match watch_snapshot(state, req.job_id.as_str(), at) {
        Err(e) => Err(e),
        Ok((snapshot, over)) => {
            if over {
                let (_, rx) = open_with(1, snapshot);
                Ok(rx)
            } else {
                let rx = state.subscribers.subscribe_with_snapshot(req.job_id.as_str(), snapshot);
                Ok(rx)
            }
        },
    }
}

/// A count of workers as a message shows it.
pub open spec fn shown_count(n: nat) -> i32 {
    if n > i32::MAX {
        i32::MAX
    } else {
        n as i32
    }
}

/// All that is known of a job.
pub open spec fn query_answer(j: JobView) -> pb::QueryJobResponseView {
    pb::QueryJobResponseView {
        job: Some(job_message(j)),
        worker_results: values_of(j.results),
        aggregated: j.aggregated,
        error: j.error,
        run_workers: shown_count(worker_count(j)),
        dirs_scanned: j.scan.dirs_scanned,
        files_scanned: j.scan.files_scanned,
        scan_duration_ms: j.scan.scan_duration_ms,
    }
}

/// Whether a request for what is known of a job was served.
pub open spec fn tells(
    r: Result<pb::QueryJobResponse, ServiceError>,
    s: StateView,
    id: Seq<char>,
) -> bool {
    match lookup(s.jobs, id) {
        Some(j) => r matches Ok(x) && x@ == query_answer(j),
        None => r matches Err(e) && e@ == not_found(id),
    }
}

/// Tells all that is known of a job.
pub fn query_job(state: &MasterState, req: pb::QueryJobRequest) -> (r: Result<
    pb::QueryJobResponse,
    ServiceError,
>)
    ensures
        tells(r, state@, req.job_id@),
{
    let _ = state.jobs.len();
    proof {
        lemma_viewed_keys(state.jobs.seq(), req.job_id@);
    }
    match state.jobs.get(req.job_id.as_str()) {
        None => Err(job_not_found(req.job_id.as_str())),
        Some(record) => {
            let (dirs_scanned, files_scanned, scan_duration_ms) =
                record.manifest_scan_stats.snapshot();
            let n: usize = record.run_worker_count();
            Ok(
                pb::QueryJobResponse {
                    job: Some(record.to_pb_job()),
                    worker_results: copy_map_values(&record.worker_results),
                    aggregated: copy_opt(&record.aggregated),
                    error: copy_opt_text(&record.error),
                    run_workers: if n as u64 > i32::MAX as u64 {
                        i32::MAX
                    } else {
                        n as i32
                    },
                    dirs_scanned,
                    files_scanned,
                    scan_duration_ms,
                },
            )
        },
    }
}

/// What happens when a job is to be cancelled. One that has ended stays as it
/// is; any other leaves the queue, and its workers are free.
pub open spec fn cancel(s: StateView, id: Seq<char>, at: Clock) -> Step<pb::DeleteJobResponse> {
    match lookup(s.jobs, id) {
        None => Step { state: s, notices: Seq::empty(), result: Err(not_found(id)) },
        Some(j) => if is_end(j.status) {
            unchanged(s, pb::DeleteJobResponse {  })
        } else {
            let n = ended(j, pb::JobStatus::Cancelled, j.error, at);
            Step {
                state: StateView {
                    jobs: put(s.jobs, id, n),
                    pending: if j.status == pb::JobStatus::Pending {
                        pending::without(s.pending, id)
                    } else {
                        s.pending
                    },
                    active: released(s.active, keys_of(j.assignments), id),
                    event_seq: next_seq(s.event_seq),
                    ..s
                },
                notices: seq![
                    NoticeView::Event(
                        event_of(n, pb::EventKind::StatusChange, s.event_seq, at),
                    ),
                    NoticeView::End(id),
                ],
                result: Ok(pb::DeleteJobResponse {  }),
            }
        },
    }
}

/// Cancels a job that has not ended.
pub fn delete_job(state: &mut MasterState, req: pb::DeleteJobRequest, at: &Clock) -> (r: Reply<
    pb::DeleteJobResponse,
>)
    ensures
        replies(r, final(state)@, cancel(old(state)@, req.job_id@, *at)),
        final(state).subscribers == old(state).subscribers,
{
    let ghost s = state@;
    let ghost id = req.job_id@;
    let _ = state.jobs.len();
    let ghost jobs = state.jobs.seq();
    proof {
        lemma_viewed_keys(jobs, id);
    }
    let record = match state.jobs.get_mut(req.job_id.as_str()) {
        Some(record) => record,
        None => {
            return Reply::refuse(job_not_found(req.job_id.as_str()));
        },
    };
    let ghost j = record@;
    if record.is_terminal() {
        let ghost same = *record;
        proof {
            lemma_viewed_put(jobs, id, same);
            lemma_put_same(s.jobs, id);
        }
        return Reply::answer(pb::DeleteJobResponse {  });
    }
    let waiting = record.status == pb::JobStatus::Pending;
    let workers = record.worker_assignments.keys();
    let error = copy_opt_text(&record.error);
    record.end(pb::JobStatus::Cancelled, error, at);
    let event = emit_for_job(&mut state.event_seq, record, pb::EventKind::StatusChange, at);
    let ghost done = *record;
    proof {
        lemma_viewed_put(jobs, id, done);
    }
    if waiting {
        pending::remove(&mut state.pending_queue, req.job_id.as_str());
    }
    release(&mut state.worker_active_jobs, &workers, req.job_id.as_str());
    let mut notices = no_notices();
    note(&mut notices, event);
    note(&mut notices, Notice::End(req.job_id));
    let r = Reply { result: Ok(pb::DeleteJobResponse {  }), notices };
    proof {
        let step = cancel(s, id, *at);
        assert(seq_views(r.notices@) =~= step.notices);
        assert(state@ =~= step.state);
    }
    r
}

/// How many jobs are listed at most: 100 where nothing is said, and never more
/// than 1000.
pub open spec fn list_limit(asked: i32) -> int {
    if asked <= 0 {
        100
    } else if asked > 1_000 {
        1_000
    } else {
        asked as int
    }
}

/// Where a job belongs in a list with the newest first: behind all that are
/// not older.
pub open spec fn rank(sorted: Seq<pb::JobView>, created_at: i64) -> int
    decreases sorted.len(),
{
    if sorted.len() == 0 || sorted[0].created_at < created_at {
        0
    } else {
        1 + rank(sorted.drop_first(), created_at)
    }
}

/// The jobs with the newest first; those of the same age in the order in which
/// they stood.
pub open spec fn newest_first(jobs: Seq<pb::JobView>) -> Seq<pb::JobView>
    decreases jobs.len(),
{
    if jobs.len() == 0 {
        Seq::empty()
    } else {
        let before = newest_first(jobs.drop_last());
        before.insert(rank(before, jobs.last().created_at), jobs.last())
    }
}

/// The jobs with the given status, as clients see them.
pub open spec fn selected(jobs: Seq<(Seq<char>, JobView)>, status: Option<i32>) -> Seq<pb::JobView>
    decreases jobs.len(),
{
    if jobs.len() == 0 {
        Seq::empty()
    } else {
        let before = selected(jobs.drop_last(), status);
        let j = jobs.last().1;
        match status {
            Some(f) => if f == j.status.code() {
                before.push(job_message(j))
            } else {
                before
            },
            None => before.push(job_message(j)),
        }
    }
}

/// The first of the listed jobs, up to the limit.
pub open spec fn listing(jobs: Seq<(Seq<char>, JobView)>, status: Option<i32>, asked: i32) -> Seq<
    pb::JobView,
> {
    let all = newest_first(selected(jobs, status));
    if all.len() > list_limit(asked) {
        all.take(list_limit(asked))
    } else {
        all
    }
}

/// A place in a list lies in it, or right behind its end.
pub proof fn lemma_rank(sorted: Seq<pb::JobView>, created_at: i64)
    ensures
        0 <= rank(sorted, created_at) <= sorted.len(),
        forall|i: int|
            0 <= i < rank(sorted, created_at) ==> (#[trigger] sorted[i]).created_at >= created_at,
        rank(sorted, created_at) < sorted.len() ==> sorted[rank(sorted, created_at)].created_at
            < created_at,
    decreases sorted.len(),
{
    if sorted.len() > 0 && sorted[0].created_at >= created_at {
        let rest = sorted.drop_first();
        lemma_rank(rest, created_at);
        assert forall|i: int| 0 <= i < rank(sorted, created_at) implies (#[trigger] sorted[i]).created_at
            >= created_at by {
            if i > 0 {
                assert(rest[i - 1] == sorted[i]);
            }
        }
    }
}

fn insert_newest(items: &mut Vec<pb::Job>, job: pb::Job)
    ensures
        seq_views(final(items)@) == seq_views(old(items)@).insert(
            rank(seq_views(old(items)@), job.created_at),
            job@,
        ),
{
    let ghost v = seq_views(items@);
    let mut i: usize = 0;
    assert(v.skip(0) =~= v);
    while i < items.len() && items[i].created_at >= job.created_at
        invariant
            i <= items@.len(),
            v == seq_views(items@),
            rank(v, job.created_at) == i + rank(v.skip(i as int), job.created_at),
        decreases items@.len() - i,
    {
        assert(v.skip(i as int)[0] == items@[i as int]@);
        assert(v.skip(i as int).drop_first() =~= v.skip(i as int + 1));
        i += 1;
    }
    proof {
        if i < items@.len() {
            assert(v.skip(i as int)[0] == items@[i as int]@);
        }
        assert(rank(v, job.created_at) == i);
    }
    let ghost before = items@;
    items.insert(i, job);
    assert(seq_views(items@) =~= v.insert(i as int, job@));
}

/// Lists jobs, the newest first.
pub fn list_jobs(state: &MasterState, req: pb::ListJobsRequest) -> (r: pb::ListJobsResponse)
    ensures
        r@.jobs == listing(state@.jobs, req.status_filter, req.limit),
{
    let limit: usize = if req.limit <= 0 {
        100
    } else if req.limit > 1_000 {
        1_000
    } else {
        req.limit as usize
    };
    let n: usize = state.jobs.len();
    let ghost jobs = state@.jobs;
    let mut items: Vec<pb::Job> = Vec::new();
    let mut i: usize = 0;
    assert(seq_views(items@) =~= Seq::<pb::JobView>::empty());
    while i < n
        invariant
            i <= n,
            n == state.jobs.seq().len(),
            jobs == state@.jobs,
            seq_views(items@) == newest_first(selected(jobs.take(i as int), req.status_filter)),
        decreases n - i,
    {
        let record = state.jobs.value_at(i);
        proof {
            assert(jobs.take(i as int + 1).drop_last() =~= jobs.take(i as int));
            assert(jobs.take(i as int + 1).last() == jobs[i as int]);
            assert(jobs[i as int].1 == record@);
        }
        let wanted = match req.status_filter {
            Some(f) => f == record.status.to_i32(),
            None => true,
        };
        if wanted {
            let ghost before = selected(jobs.take(i as int), req.status_filter);
            let job = record.to_pb_job();
            proof {
                assert(before.push(job@).drop_last() =~= before);
            }
            insert_newest(&mut items, job);
        }
        i += 1;
    }
    assert(jobs.take(i as int) =~= jobs);
    let ghost all = seq_views(items@);
    if items.len() > limit {
        let ghost before = items@;
        items.truncate(limit);
        assert(seq_views(items@) =~= all.take(limit as int));
    }
    pb::ListJobsResponse { jobs: items }
}

/// A list with the newest first holds every job once, in falling order of age.
pub proof fn law_list_is_sorted(jobs: Seq<pb::JobView>)
    ensures
        newest_first(jobs).to_multiset() == jobs.to_multiset(),
        forall|i: int, k: int|
            0 <= i < k < newest_first(jobs).len() ==> (#[trigger] newest_first(jobs)[i]).created_at
                >= (#[trigger] newest_first(jobs)[k]).created_at,
    decreases jobs.len(),
{
    broadcast use vstd::seq_lib::group_to_multiset_ensures;

    if jobs.len() > 0 {
        let head = jobs.drop_last();
        let x = jobs.last();
        let before = newest_first(head);
        law_list_is_sorted(head);
        lemma_rank(before, x.created_at);
        let p = rank(before, x.created_at);
        let after = before.insert(p, x);
        assert(head.push(x) =~= jobs);
        assert forall|i: int, k: int| 0 <= i < k < after.len() implies (#[trigger] after[i]).created_at
            >= (#[trigger] after[k]).created_at by {
            let a = if i < p { i } else { i - 1 };
            let b = if k < p { k } else { k - 1 };
            if i != p {
                assert(after[i] == before[a]);
            }
            if k != p {
                assert(after[k] == before[b]);
            }
            if i == p && p < before.len() {
                assert(before[p].created_at < x.created_at);
                if b > p {
                    assert(before[p].created_at >= before[b].created_at);
                }
            }
        }
    }
}

} // verus!
