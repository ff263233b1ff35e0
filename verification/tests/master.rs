use cvdbench::config::{MasterConfig, SchedulerConfig};
use cvdbench::events::Notice;
use cvdbench::gc;
use cvdbench::pb;
use cvdbench::scheduler::fetch_job::fetch_job;
use cvdbench::scheduler::ready::report_ready;
use cvdbench::scheduler::staleness;
use cvdbench::service::cli_rpc;
use cvdbench::service::cli_rpc::Probe;
use cvdbench::service::error::Code;
use cvdbench::service::worker_rpc;
use cvdbench::service::MasterServiceImpl;
use cvdbench::state;
use cvdbench::state::job::{JobRecord, WorkerAssignment};
use cvdbench::state::MasterState;
use cvdbench::strmap::StrMap;
use cvdbench::time::{Clock, Duration};
use tokio::sync::mpsc::error::TryRecvError;

fn clock(ms: u64) -> Clock {
    Clock { wall_ms: 1_700_000_000_000 + ms as i64, mono_ns: (86_400_000 + ms as u128) * 1_000_000 }
}

fn master_with(scheduler: SchedulerConfig) -> MasterState {
    let mut filesystems = StrMap::new();
    filesystems.insert("examplefs".into(), "/mnt/examplefs".into());
    MasterState::new(MasterConfig {
        listen: "127.0.0.1:0".into(),
        metrics_listen: None,
        scheduler,
        filesystems,
    })
}

fn test_state() -> MasterState {
    master_with(SchedulerConfig::default())
}

fn good_proto_spec(target_workers: i32) -> pb::BenchSpec {
    pb::BenchSpec {
        fs_name: "examplefs".into(),
        io_mode: "seq".into(),
        io_aligned: true,
        direct_io: false,
        block_size: "1Mi".into(),
        duration: "1h".into(),
        warmup: String::new(),
        target_workers,
        read: None,
        write: Some(pb::WriteConfig {
            concurrency: 1,
            dir: "bench/write".into(),
            file_size: "4Ki".into(),
            file_size_range: None,
            fsync: false,
            cleanup: false,
            think_time: String::new(),
            rate_limit: String::new(),
            verify_after_write: false,
        }),
        metadata: None,
    }
}

fn cli_spec() -> pb::BenchSpec {
    let mut s = good_proto_spec(4);
    s.warmup = "5m".into();
    let w = s.write.as_mut().unwrap();
    w.concurrency = 4;
    w.rate_limit = "1GB/s".into();
    s
}

fn create_with(state: &mut MasterState, spec: pb::BenchSpec) -> String {
    cli_rpc::create_job(
        state,
        pb::CreateJobRequest { spec: Some(spec) },
        &StrMap::new(),
        &clock(0),
    )
    .result
    .unwrap()
    .job_id
}

fn create(state: &mut MasterState, target_workers: i32) -> String {
    create_with(state, good_proto_spec(target_workers))
}

fn fetch(state: &mut MasterState, worker_id: &str) -> pb::FetchJobResponse {
    fetch_job(state, pb::FetchJobRequest { worker_id: worker_id.into() }, &clock(0))
        .result
        .unwrap()
}

fn ready(state: &mut MasterState, job_id: &str, worker: &str) -> pb::ReportReadyResponse {
    report_ready(
        state,
        pb::ReportReadyRequest { job_id: job_id.into(), worker_id: worker.into(), error: None },
        &clock(0),
    )
    .result
    .unwrap()
}

fn create_and_fill_slots(state: &mut MasterState, workers: &[&str]) -> String {
    let job_id = create(state, workers.len() as i32);
    for w in workers {
        fetch(state, w);
    }
    job_id
}

fn query(state: &MasterState, job_id: &str) -> pb::QueryJobResponse {
    cli_rpc::query_job(state, pb::QueryJobRequest { job_id: job_id.into() }).unwrap()
}

fn result_of(worker: &str, success: bool) -> pb::WorkerResult {
    pb::WorkerResult {
        worker_id: worker.into(),
        success,
        error: if success { None } else { Some("disk on fire".into()) },
        effective_duration_ms: 1_000,
        measure_start_ms: 1_000,
        measure_end_ms: 2_000,
        ..pb::WorkerResult::default()
    }
}

fn send_result(state: &mut MasterState, job_id: &str, result: pb::WorkerResult) -> pb::ReportResultResponse {
    worker_rpc::report_result(
        state,
        pb::ReportResultRequest { job_id: job_id.into(), result: Some(result) },
        &clock(5_000),
    )
    .result
    .unwrap()
}

fn send_progress(
    state: &mut MasterState,
    job_id: &str,
    worker: &str,
) -> pb::ReportProgressResponse {
    worker_rpc::report_progress(
        state,
        pb::ReportProgressRequest {
            job_id: job_id.into(),
            progress: Some(pb::WorkerProgress {
                worker_id: worker.into(),
                elapsed_ms: 10,
                per_op: StrMap::new(),
                phase: pb::WorkerPhase::Measuring.to_i32(),
            }),
        },
        &clock(1_000),
    )
    .result
    .unwrap()
}

#[test]
fn fills_slots_in_fifo_and_transitions_to_preparing() {
    let mut state = test_state();
    let job_id = create(&mut state, 3);

    let r1 = fetch(&mut state, "host1-1-aaaaaaaa");
    assert_eq!(r1.job_id.as_deref(), Some(job_id.as_str()));
    assert_eq!(r1.worker_index, Some(0));
    let r2 = fetch(&mut state, "host1-2-bbbbbbbb");
    assert_eq!(r2.worker_index, Some(1));
    let r3 = fetch(&mut state, "host1-3-cccccccc");
    assert_eq!(r3.worker_index, Some(2));

    let rec = state.jobs.get(&job_id).unwrap();
    assert_eq!(rec.status, pb::JobStatus::Preparing);
    assert_eq!(rec.run_workers.len(), 3);
    assert!(state.pending_queue.is_empty());
}

#[test]
fn idempotent_replay_returns_same_job_and_index() {
    let mut state = test_state();
    create(&mut state, 3);
    let r1 = fetch(&mut state, "host1-1-aaaaaaaa");
    let r1b = fetch(&mut state, "host1-1-aaaaaaaa");
    assert_eq!(r1.job_id, r1b.job_id);
    assert_eq!(r1.worker_index, r1b.worker_index);
    let rec = state.jobs.value_at(0);
    assert_eq!(rec.slots_filled(), 1);
}

#[test]
fn empty_response_when_no_pending() {
    let mut state = test_state();
    let resp = fetch(&mut state, "host1-1-aaaaaaaa");
    assert!(resp.job_id.is_none());
    assert!(resp.master_now_ms > 0);
}

#[test]
fn second_job_picks_up_after_first_filled() {
    let mut state = test_state();
    let job_a = create(&mut state, 1);
    let job_b = create(&mut state, 1);

    let ra = fetch(&mut state, "host1-1-aaaaaaaa");
    assert_eq!(ra.job_id.as_deref(), Some(job_a.as_str()));

    let rb = fetch(&mut state, "host2-2-bbbbbbbb");
    assert_eq!(rb.job_id.as_deref(), Some(job_b.as_str()));
}

#[test]
fn rejects_invalid_worker_id() {
    let mut state = test_state();
    let err = fetch_job(
        &mut state,
        pb::FetchJobRequest { worker_id: "bad worker id".into() },
        &clock(0),
    )
    .result
    .unwrap_err();
    assert_eq!(err.code(), Code::InvalidArgument);
}

#[test]
fn ready_advances_to_running_when_all_report() {
    let mut state = test_state();
    let workers = ["host1-1-aaaaaaaa", "host1-2-bbbbbbbb"];
    let job_id = create_and_fill_slots(&mut state, &workers);

    let r1 = ready(&mut state, &job_id, workers[0]);
    assert!(!r1.unknown_job);
    assert_eq!(r1.start_at_ms, 0);

    let r2 = ready(&mut state, &job_id, workers[1]);
    assert!(r2.start_at_ms > 0);
    assert_eq!(r2.start_at_ms, clock(0).wall_ms + 5_000);

    assert_eq!(state.jobs.get(&job_id).unwrap().status, pb::JobStatus::Running);
}

#[test]
fn error_in_ready_makes_job_fail() {
    let mut state = test_state();
    let workers = ["host1-1-aaaaaaaa", "host1-2-bbbbbbbb"];
    let job_id = create_and_fill_slots(&mut state, &workers);

    let resp = report_ready(
        &mut state,
        pb::ReportReadyRequest {
            job_id: job_id.clone(),
            worker_id: workers[0].into(),
            error: Some("alignment unsupported".into()),
        },
        &clock(0),
    )
    .result
    .unwrap();
    assert_eq!(resp.start_at_ms, 0);

    let rec = state.jobs.get(&job_id).unwrap();
    assert_eq!(rec.status, pb::JobStatus::Failed);
    assert!(rec.error.as_deref().unwrap().contains("alignment unsupported"));
}

#[test]
fn ready_from_non_run_worker_is_unknown() {
    let mut state = test_state();
    let workers = ["host1-1-aaaaaaaa", "host1-2-bbbbbbbb"];
    let job_id = create_and_fill_slots(&mut state, &workers);

    let resp = ready(&mut state, &job_id, "stranger-9-99999999");
    assert!(resp.unknown_job);
}

#[test]
fn ready_after_cancel_returns_cancelled() {
    let mut state = test_state();
    let workers = ["host1-1-aaaaaaaa", "host1-2-bbbbbbbb"];
    let job_id = create_and_fill_slots(&mut state, &workers);

    cli_rpc::delete_job(&mut state, pb::DeleteJobRequest { job_id: job_id.clone() }, &clock(0))
        .result
        .unwrap();

    let resp = ready(&mut state, &job_id, workers[0]);
    assert!(resp.cancelled);
    assert!(!resp.unknown_job);
}

#[test]
fn second_ready_after_running_does_not_change_start_at() {
    let mut state = test_state();
    let workers = ["host1-1-aaaaaaaa", "host1-2-bbbbbbbb"];
    let job_id = create_and_fill_slots(&mut state, &workers);

    ready(&mut state, &job_id, workers[0]);
    let r2 = ready(&mut state, &job_id, workers[1]);
    let r3 = ready(&mut state, &job_id, workers[1]);
    assert_eq!(r3.start_at_ms, r2.start_at_ms);
}

#[test]
fn ready_during_pending_is_recorded() {
    let mut state = test_state();
    let job_id = create(&mut state, 2);
    fetch(&mut state, "host1-1-aaaaaaaa");
    let r = ready(&mut state, &job_id, "host1-1-aaaaaaaa");
    assert!(!r.unknown_job);
    assert_eq!(r.start_at_ms, 0);
    let rec = state.jobs.get(&job_id).unwrap();
    assert!(rec.ready_workers.contains("host1-1-aaaaaaaa"));
    assert_eq!(rec.status, pb::JobStatus::Pending);
}

fn watched_state(staleness: Duration, prepare_timeout: Duration) -> MasterState {
    master_with(SchedulerConfig {
        worker_staleness: staleness,
        prepare_timeout,
        ..SchedulerConfig::default()
    })
}

fn redacted_spec() -> pb::BenchSpec {
    pb::BenchSpec {
        fs_name: "examplefs".into(),
        io_mode: "seq".into(),
        io_aligned: true,
        direct_io: false,
        block_size: "1Mi".into(),
        duration: "1s".into(),
        warmup: String::new(),
        target_workers: 2,
        read: Some(pb::ReadConfig {
            concurrency: 1,
            file_manifest: "m.csv".into(),
            ..Default::default()
        }),
        write: None,
        metadata: None,
    }
}

fn add_worker(record: &mut JobRecord, worker: &str, last_seen: u128) {
    record.worker_assignments.insert(worker.into(), WorkerAssignment { worker_index: 0 });
    record.run_workers.insert(worker.into());
    record.worker_last_seen.insert(worker.into(), last_seen);
}

fn install_running_job(state: &mut MasterState, id: &str, run_workers: &[&str], last_seen: Clock) {
    let mut record = JobRecord::new(
        id.into(),
        redacted_spec(),
        None,
        "/mnt/examplefs".into(),
        run_workers.len() as u32,
        0,
    );
    record.status = pb::JobStatus::Running;
    for w in run_workers {
        add_worker(&mut record, w, last_seen.mono_ns);
    }
    state.jobs.insert(id.into(), record);
}

#[test]
fn fails_job_when_worker_stale() {
    let mut state = watched_state(Duration::from_millis(100), Duration::from_secs(60));
    install_running_job(&mut state, "j1", &["w1", "w2"], clock(0));
    state.worker_active_jobs.insert("w1".into(), "j1".into());

    let notices = staleness::tick_once(&mut state, &clock(500));

    let rec = state.jobs.get("j1").unwrap();
    assert_eq!(rec.status, pb::JobStatus::Failed);
    assert!(rec.error.as_deref().unwrap().contains("stale"));
    assert!(rec.aggregated.is_some());
    assert!(!state.worker_active_jobs.contains_key("w1"));
    assert!(notices.iter().any(|n| matches!(n, Notice::End(id) if id == "j1")));
}

#[test]
fn prepare_timeout_makes_job_failed() {
    let mut state = watched_state(Duration::from_secs(60), Duration::from_millis(100));
    let mut record =
        JobRecord::new("j1".into(), redacted_spec(), None, "/mnt/examplefs".into(), 2, 0);
    record.status = pb::JobStatus::Preparing;
    record.preparing_since = Some(clock(0).mono_ns);
    for w in ["w1", "w2"] {
        add_worker(&mut record, w, clock(500).mono_ns);
    }
    state.jobs.insert("j1".into(), record);

    staleness::tick_once(&mut state, &clock(500));

    let rec = state.jobs.get("j1").unwrap();
    assert_eq!(rec.status, pb::JobStatus::Failed);
    assert!(rec.error.as_deref().unwrap().contains("prepare_timeout"));
}

#[test]
fn does_not_touch_already_terminal_jobs() {
    let mut state = watched_state(Duration::from_millis(10), Duration::from_secs(1));
    let mut record =
        JobRecord::new("j1".into(), redacted_spec(), None, "/mnt/examplefs".into(), 1, 0);
    record.status = pb::JobStatus::Completed;
    state.jobs.insert("j1".into(), record);

    staleness::tick_once(&mut state, &clock(0));

    assert_eq!(state.jobs.get("j1").unwrap().status, pb::JobStatus::Completed);
}

#[test]
fn does_not_fail_when_within_threshold() {
    let mut state = watched_state(Duration::from_secs(60), Duration::from_secs(60));
    install_running_job(&mut state, "j1", &["w1"], clock(0));
    staleness::tick_once(&mut state, &clock(50));
    assert_eq!(state.jobs.get("j1").unwrap().status, pb::JobStatus::Running);
}

fn retaining(retention: Duration) -> MasterState {
    master_with(SchedulerConfig { job_retention: retention, ..SchedulerConfig::default() })
}

fn install_terminal(state: &mut MasterState, id: &str, status: pb::JobStatus, terminal_at_ms: i64) {
    let mut record = JobRecord::new(
        id.into(),
        pb::BenchSpec::default(),
        None,
        "/mnt/examplefs".into(),
        1,
        terminal_at_ms - 1_000,
    );
    record.status = status;
    record.terminal_at_ms = Some(terminal_at_ms);
    state.jobs.insert(id.into(), record);
}

#[test]
fn removes_jobs_past_retention() {
    let mut state = retaining(Duration::from_millis(100));
    let now = clock(0).wall_ms;
    install_terminal(&mut state, "old", pb::JobStatus::Completed, now - 1_000);
    install_terminal(&mut state, "recent", pb::JobStatus::Completed, now - 10);
    gc::tick_once(&mut state, &clock(0));
    assert!(!state.jobs.contains_key("old"));
    assert!(state.jobs.contains_key("recent"));
}

#[test]
fn skips_non_terminal_jobs() {
    let mut state = retaining(Duration::from_millis(0));
    let now = clock(0).wall_ms;
    let mut record = JobRecord::new(
        "running".into(),
        pb::BenchSpec::default(),
        None,
        "/mnt/examplefs".into(),
        1,
        now - 86_400_000,
    );
    record.status = pb::JobStatus::Running;
    state.jobs.insert("running".into(), record);
    gc::tick_once(&mut state, &clock(0));
    assert!(state.jobs.contains_key("running"));
}

#[test]
fn falls_back_to_created_at_when_terminal_at_missing() {
    let mut state = retaining(Duration::from_millis(100));
    let now = clock(0).wall_ms;
    let mut record = JobRecord::new(
        "old".into(),
        pb::BenchSpec::default(),
        None,
        "/mnt/examplefs".into(),
        1,
        now - 1_000,
    );
    record.status = pb::JobStatus::Completed;
    record.terminal_at_ms = None;
    state.jobs.insert("old".into(), record);
    gc::tick_once(&mut state, &clock(0));
    assert!(!state.jobs.contains_key("old"));
}

#[test]
fn create_then_query_and_list() {
    let mut state = test_state();
    let job_id = create_with(&mut state, cli_spec());

    let job = query(&state, &job_id).job.unwrap();
    assert_eq!(job.job_id, job_id);
    assert_eq!(job.status, pb::JobStatus::Pending.to_i32());

    let l = cli_rpc::list_jobs(
        &state,
        pb::ListJobsRequest { status_filter: Some(pb::JobStatus::Pending.to_i32()), limit: 0 },
    );
    assert_eq!(l.jobs.len(), 1);
    assert_eq!(l.jobs[0].job_id, job_id);
}

#[test]
fn query_includes_job_level_error() {
    let mut state = test_state();
    let job_id = create_with(&mut state, cli_spec());
    {
        let rec = state.jobs.get_mut(&job_id).unwrap();
        rec.status = pb::JobStatus::Failed;
        rec.error = Some("manifest reader: bad path".into());
    }
    let q = query(&state, &job_id);
    assert_eq!(q.error.as_deref(), Some("manifest reader: bad path"));
}

#[test]
fn query_includes_master_run_worker_count() {
    let mut state = test_state();
    let job_id = create_with(&mut state, cli_spec());
    {
        let rec = state.jobs.get_mut(&job_id).unwrap();
        rec.run_workers.insert("worker-a".into());
        rec.run_workers.insert("worker-b".into());
    }
    let q = query(&state, &job_id);
    assert_eq!(q.worker_results.len(), 0);
    assert_eq!(q.run_workers, 2);
}

#[test]
fn create_rejects_unknown_fs_name() {
    let mut state = test_state();
    let mut s = cli_spec();
    s.fs_name = "nonexistent".into();
    let err = cli_rpc::create_job(
        &mut state,
        pb::CreateJobRequest { spec: Some(s) },
        &StrMap::new(),
        &clock(0),
    )
    .result
    .unwrap_err();
    assert_eq!(err.code(), Code::FailedPrecondition);
    assert!(err.message.contains("nonexistent"));
}

#[test]
fn create_rejects_invalid_spec() {
    let mut state = test_state();
    let mut s = cli_spec();
    s.duration = "0s".into();
    let err = cli_rpc::create_job(
        &mut state,
        pb::CreateJobRequest { spec: Some(s) },
        &StrMap::new(),
        &clock(0),
    )
    .result
    .unwrap_err();
    assert_eq!(err.code(), Code::FailedPrecondition);
}

fn read_spec() -> pb::BenchSpec {
    let mut s = cli_spec();
    s.write = None;
    s.read = Some(pb::ReadConfig {
        concurrency: 4,
        file_manifest: "/tmp/files.csv".into(),
        dir_manifest: String::new(),
        think_time: String::new(),
        rate_limit: "1GB/s".into(),
        s3_consistency_check: Some(pb::ConsistencyConfig {
            bucket_name: "b".into(),
            bucket_url: "http://s3".into(),
            access_key: "AK".into(),
            secret_key: "SK".into(),
            region: "us-east-1".into(),
            prefix: String::new(),
            session_token: "TOK".into(),
        }),
        loop_files: false,
    });
    s
}

fn probed(path: &str, probe: Probe) -> StrMap<Probe> {
    let mut probes = StrMap::new();
    probes.insert(path.into(), probe);
    probes
}

#[test]
fn create_redacts_credentials_in_storage() {
    let mut state = test_state();
    let reply = cli_rpc::create_job(
        &mut state,
        pb::CreateJobRequest { spec: Some(read_spec()) },
        &probed("/tmp/files.csv", Probe::Readable),
        &clock(0),
    );
    let job_id = reply.result.unwrap().job_id;

    let rec = state.jobs.get(&job_id).unwrap();
    let stored = rec.spec_redacted.read.as_ref().unwrap().s3_consistency_check.as_ref().unwrap();
    assert_eq!(stored.access_key, "***");
    assert_eq!(stored.secret_key, "***");
    assert_eq!(stored.session_token, "***");
    let creds = rec.credentials.as_ref().unwrap();
    assert_eq!(creds.access_key, "AK");
    assert_eq!(creds.secret_key, "SK");
    assert_eq!(creds.session_token, "TOK");
}

#[test]
fn delete_marks_pending_as_cancelled() {
    let mut state = test_state();
    let job_id = create_with(&mut state, cli_spec());
    cli_rpc::delete_job(&mut state, pb::DeleteJobRequest { job_id: job_id.clone() }, &clock(0))
        .result
        .unwrap();
    assert_eq!(state.jobs.get(&job_id).unwrap().status, pb::JobStatus::Cancelled);
}

#[test]
fn list_jobs_caps_at_max_limit() {
    let mut state = test_state();
    for _ in 0..5 {
        create_with(&mut state, cli_spec());
    }
    let l = cli_rpc::list_jobs(&state, pb::ListJobsRequest { status_filter: None, limit: 2 });
    assert_eq!(l.jobs.len(), 2);
}

#[test]
fn cli_full_lifecycle() {
    let mut master = MasterServiceImpl::new(test_state());
    let mut spec = cli_spec();
    spec.write.as_mut().unwrap().rate_limit = String::new();
    let job_id = master
        .create_job(pb::CreateJobRequest { spec: Some(spec) }, &StrMap::new(), &clock(0))
        .result
        .unwrap()
        .job_id;
    assert!(!job_id.is_empty());

    let mut events =
        master.watch_job(pb::WatchJobRequest { job_id: job_id.clone() }, &clock(0)).unwrap();
    let first = events.try_recv().unwrap().unwrap();
    assert_eq!(first.job_id, job_id);
    assert_eq!(first.status, pb::JobStatus::Pending.to_i32());
    assert_eq!(first.kind, pb::EventKind::StatusChange.to_i32());
    drop(events);

    let q = master.query_job(pb::QueryJobRequest { job_id: job_id.clone() }).unwrap();
    let job = q.job.unwrap();
    assert_eq!(job.job_id, job_id);
    assert_eq!(job.status, pb::JobStatus::Pending.to_i32());

    let l = master.list_jobs(pb::ListJobsRequest { status_filter: None, limit: 0 });
    assert_eq!(l.jobs.len(), 1);
    assert_eq!(l.jobs[0].job_id, job_id);

    master
        .delete_job(pb::DeleteJobRequest { job_id: job_id.clone() }, &clock(0))
        .result
        .unwrap();

    let q = master.query_job(pb::QueryJobRequest { job_id }).unwrap();
    assert_eq!(q.job.unwrap().status, pb::JobStatus::Cancelled.to_i32());
}

#[test]
fn create_rejects_unknown_fs() {
    let mut master = MasterServiceImpl::new(test_state());
    let mut spec = cli_spec();
    spec.fs_name = "nope".into();
    let err = master
        .create_job(pb::CreateJobRequest { spec: Some(spec) }, &StrMap::new(), &clock(0))
        .result
        .unwrap_err();
    assert_eq!(err.code(), Code::FailedPrecondition);
}

#[test]
fn worker_rpcs_return_unknown_job_for_now() {
    let mut master = MasterServiceImpl::new(test_state());
    let worker = || "host-1-aaaa1111".to_owned();

    let fr = master
        .fetch_job(pb::FetchJobRequest { worker_id: worker() }, &clock(0))
        .result
        .unwrap();
    assert!(fr.job_id.is_none());
    assert!(fr.master_now_ms > 0);

    let rr = master
        .report_ready(
            pb::ReportReadyRequest { job_id: "ghost".into(), worker_id: worker(), error: None },
            &clock(0),
        )
        .result
        .unwrap();
    assert!(rr.unknown_job);

    let fb = master
        .fetch_file_batch(
            pb::FetchFileBatchRequest {
                job_id: "ghost".into(),
                worker_id: worker(),
                batch_size: 100,
            },
            &clock(0),
        )
        .result
        .unwrap();
    assert!(fb.unknown_job);

    let pr = master
        .report_progress(
            pb::ReportProgressRequest {
                job_id: "ghost".into(),
                progress: Some(pb::WorkerProgress {
                    worker_id: worker(),
                    elapsed_ms: 0,
                    per_op: Default::default(),
                    phase: pb::WorkerPhase::Preparing.to_i32(),
                }),
            },
            &clock(0),
        )
        .result
        .unwrap();
    assert!(pr.unknown_job);

    let rs = master
        .report_result(
            pb::ReportResultRequest {
                job_id: "ghost".into(),
                result: Some(pb::WorkerResult {
                    worker_id: worker(),
                    ..pb::WorkerResult::default()
                }),
            },
            &clock(0),
        )
        .result
        .unwrap();
    assert!(rs.unknown_job);
}

#[test]
fn staleness_watcher_fails_unattended_running_job() {
    let mut master = MasterServiceImpl::new(master_with(SchedulerConfig {
        worker_staleness: Duration::from_millis(100),
        prepare_timeout: Duration::from_secs(60),
        start_delay: Duration::from_millis(10),
        ..SchedulerConfig::default()
    }));
    let job_id = master
        .create_job(
            pb::CreateJobRequest { spec: Some(good_proto_spec(2)) },
            &StrMap::new(),
            &clock(0),
        )
        .result
        .unwrap()
        .job_id;
    for w in ["host1-1-aaaaaaaa", "host2-1-bbbbbbbb"] {
        master
            .fetch_job(pb::FetchJobRequest { worker_id: w.into() }, &clock(0))
            .result
            .unwrap();
    }

    staleness::tick_once(&mut master.state, &clock(200));

    let q = master.query_job(pb::QueryJobRequest { job_id }).unwrap();
    assert_eq!(q.job.unwrap().status, pb::JobStatus::Failed.to_i32());
}

#[test]
fn prepare_timeout_fails_job_when_some_worker_never_reports_ready() {
    let mut master = MasterServiceImpl::new(master_with(SchedulerConfig {
        worker_staleness: Duration::from_secs(60),
        prepare_timeout: Duration::from_millis(100),
        start_delay: Duration::from_millis(10),
        ..SchedulerConfig::default()
    }));
    let job_id = master
        .create_job(
            pb::CreateJobRequest { spec: Some(good_proto_spec(2)) },
            &StrMap::new(),
            &clock(0),
        )
        .result
        .unwrap()
        .job_id;
    let workers = ["host1-1-aaaaaaaa", "host2-1-bbbbbbbb"];
    for w in &workers {
        master
            .fetch_job(pb::FetchJobRequest { worker_id: (*w).into() }, &clock(0))
            .result
            .unwrap();
    }
    master
        .report_ready(
            pb::ReportReadyRequest {
                job_id: job_id.clone(),
                worker_id: workers[0].into(),
                error: None,
            },
            &clock(0),
        )
        .result
        .unwrap();

    staleness::tick_once(&mut master.state, &clock(200));

    let q = master.query_job(pb::QueryJobRequest { job_id: job_id.clone() }).unwrap();
    assert_eq!(q.job.unwrap().status, pb::JobStatus::Failed.to_i32());
    let err = master.state.jobs.get(&job_id).unwrap().error.clone().unwrap_or_default();
    assert!(
        err.contains("prepare_timeout") || err.contains("PREPARING"),
        "expected prepare_timeout reason, got {err:?}"
    );
}

#[test]
fn gc_removes_terminal_jobs_past_retention() {
    let mut master = MasterServiceImpl::new(retaining(Duration::from_millis(100)));
    let job_id = master
        .create_job(
            pb::CreateJobRequest { spec: Some(good_proto_spec(1)) },
            &StrMap::new(),
            &clock(0),
        )
        .result
        .unwrap()
        .job_id;
    master
        .delete_job(pb::DeleteJobRequest { job_id: job_id.clone() }, &clock(0))
        .result
        .unwrap();

    gc::tick_once(&mut master.state, &clock(150));

    let err = master.query_job(pb::QueryJobRequest { job_id }).unwrap_err();
    assert_eq!(err.code(), Code::NotFound);
}

#[test]
fn results_of_all_workers_complete_a_job() {
    let mut state = test_state();
    let workers = ["host1-1-aaaaaaaa", "host1-2-bbbbbbbb"];
    let job_id = create_and_fill_slots(&mut state, &workers);
    for w in workers {
        ready(&mut state, &job_id, w);
    }
    assert!(!send_result(&mut state, &job_id, result_of(workers[0], true)).unknown_job);
    assert_eq!(state.jobs.get(&job_id).unwrap().status, pb::JobStatus::Running);
    send_result(&mut state, &job_id, result_of(workers[1], true));
    let rec = state.jobs.get(&job_id).unwrap();
    assert_eq!(rec.status, pb::JobStatus::Completed);
    assert_eq!(rec.success_worker_count, 2);
    assert_eq!(rec.terminal_at_ms, Some(clock(5_000).wall_ms));
    assert!(state.worker_active_jobs.is_empty());
}

#[test]
fn nobody_else_starts_or_completes_a_job() {
    let mut state = test_state();
    let workers = ["host1-1-aaaaaaaa", "host1-2-bbbbbbbb"];
    let stranger = "stranger-9-99999999";
    let job_id = create_and_fill_slots(&mut state, &workers);
    ready(&mut state, &job_id, workers[0]);
    ready(&mut state, &job_id, workers[0]);
    assert!(ready(&mut state, &job_id, stranger).unknown_job);
    let rec = state.jobs.get(&job_id).unwrap();
    assert_eq!(rec.status, pb::JobStatus::Preparing);
    assert_eq!(rec.run_workers.len(), 2);
    for w in workers {
        assert!(rec.run_workers.contains(w));
    }
    assert!(!rec.ready_workers.contains(stranger));
    ready(&mut state, &job_id, workers[1]);
    assert_eq!(state.jobs.get(&job_id).unwrap().status, pb::JobStatus::Running);
    send_result(&mut state, &job_id, result_of(workers[0], true));
    assert!(send_result(&mut state, &job_id, result_of(stranger, true)).unknown_job);
    let rec = state.jobs.get(&job_id).unwrap();
    assert_eq!(rec.status, pb::JobStatus::Running);
    assert!(rec.worker_results.get(stranger).is_none());
    assert_eq!(rec.worker_results.len(), 1);
    send_result(&mut state, &job_id, result_of(workers[1], true));
    let rec = state.jobs.get(&job_id).unwrap();
    assert_eq!(rec.status, pb::JobStatus::Completed);
    for w in workers {
        assert!(rec.worker_results.get(w).unwrap().success);
    }
}

#[test]
fn a_second_result_of_a_worker_changes_nothing() {
    let mut state = test_state();
    let workers = ["host1-1-aaaaaaaa", "host1-2-bbbbbbbb"];
    let job_id = create_and_fill_slots(&mut state, &workers);
    for w in workers {
        ready(&mut state, &job_id, w);
    }
    send_result(&mut state, &job_id, result_of(workers[0], true));
    let seq = state.event_seq;
    send_result(&mut state, &job_id, result_of(workers[0], true));
    assert_eq!(state.event_seq, seq);
    assert_eq!(state.jobs.get(&job_id).unwrap().worker_results.len(), 1);
}

#[test]
fn a_failed_worker_fails_its_job() {
    let mut state = test_state();
    let workers = ["host1-1-aaaaaaaa", "host1-2-bbbbbbbb"];
    let job_id = create_and_fill_slots(&mut state, &workers);
    for w in workers {
        ready(&mut state, &job_id, w);
    }
    send_result(&mut state, &job_id, result_of(workers[0], false));
    let rec = state.jobs.get(&job_id).unwrap();
    assert_eq!(rec.status, pb::JobStatus::Failed);
    assert!(rec.error.as_deref().unwrap().contains("disk on fire"));
    let late = send_result(&mut state, &job_id, result_of(workers[1], true));
    assert!(late.unknown_job);
    assert_eq!(state.jobs.get(&job_id).unwrap().status, pb::JobStatus::Failed);
}

#[test]
fn freed_workers_take_the_next_job() {
    let mut state = test_state();
    let first = create(&mut state, 1);
    let second = create(&mut state, 1);
    let worker = "host1-1-aaaaaaaa";
    assert_eq!(fetch(&mut state, worker).job_id, Some(first.clone()));
    ready(&mut state, &first, worker);
    assert_eq!(fetch(&mut state, worker).job_id, Some(first.clone()));
    send_result(&mut state, &first, result_of(worker, true));
    assert_eq!(state.jobs.get(&first).unwrap().status, pb::JobStatus::Completed);
    assert_eq!(fetch(&mut state, worker).job_id, Some(second));
}

#[test]
fn places_are_numbered_from_zero() {
    let mut state = test_state();
    let job_id = create(&mut state, 3);
    for (i, w) in ["h-1-aaaaaaaa", "h-2-bbbbbbbb", "h-3-cccccccc"].iter().enumerate() {
        assert_eq!(fetch(&mut state, w).worker_index, Some(i as i32));
    }
    let rec = state.jobs.get(&job_id).unwrap();
    assert_eq!(rec.slots_filled(), 3);
    assert_eq!(rec.slots_remaining(), 0);
    assert_eq!(rec.run_worker_count(), 3);
    assert!(fetch(&mut state, "h-4-dddddddd").job_id.is_none());
}

#[test]
fn only_workers_are_given_credentials() {
    let mut state = test_state();
    let mut s = read_spec();
    s.target_workers = 1;
    let job_id = cli_rpc::create_job(
        &mut state,
        pb::CreateJobRequest { spec: Some(s) },
        &probed("/tmp/files.csv", Probe::Readable),
        &clock(0),
    )
    .result
    .unwrap()
    .job_id;
    let given = fetch(&mut state, "h-1-aaaaaaaa").s3_credentials.unwrap();
    assert_eq!(given.secret_key, "SK");
    let shown = query(&state, &job_id).job.unwrap().spec.unwrap().read.unwrap();
    assert_eq!(shown.s3_consistency_check.unwrap().secret_key, "***");
    let listed =
        cli_rpc::list_jobs(&state, pb::ListJobsRequest { status_filter: None, limit: 0 });
    let listed = listed.jobs[0].spec.as_ref().unwrap().read.as_ref().unwrap();
    assert_eq!(listed.s3_consistency_check.as_ref().unwrap().access_key, "***");
}

#[test]
fn lists_must_be_readable_files() {
    for (probe, part) in [
        (Probe::NotAFile, "not a regular file"),
        (Probe::Unreadable("No such file or directory".into()), "No such file or directory"),
    ] {
        let mut state = test_state();
        let err = cli_rpc::create_job(
            &mut state,
            pb::CreateJobRequest { spec: Some(read_spec()) },
            &probed("/tmp/files.csv", probe),
            &clock(0),
        )
        .result
        .unwrap_err();
        assert_eq!(err.code(), Code::FailedPrecondition);
        assert!(err.message.contains(part), "got {}", err.message);
        assert!(state.jobs.is_empty());
        assert!(state.pending_queue.is_empty());
    }
    assert!(cli_rpc::named_listings(&read_spec()).contains(&"/tmp/files.csv".to_owned()));
}

#[test]
fn a_request_without_a_spec_is_refused() {
    let mut state = test_state();
    let err = cli_rpc::create_job(
        &mut state,
        pb::CreateJobRequest { spec: None },
        &StrMap::new(),
        &clock(0),
    )
    .result
    .unwrap_err();
    assert_eq!(err.code(), Code::InvalidArgument);
}

#[test]
fn a_read_job_hands_out_its_files_in_batches() {
    let mut master = MasterServiceImpl::new(test_state());
    let mut s = read_spec();
    s.target_workers = 1;
    let job_id = master
        .create_job(
            pb::CreateJobRequest { spec: Some(s) },
            &probed("/tmp/files.csv", Probe::Readable),
            &clock(0),
        )
        .result
        .unwrap()
        .job_id;
    let worker = "h-1-aaaaaaaa";
    let reply = master.fetch_job(pb::FetchJobRequest { worker_id: worker.into() }, &clock(0));
    assert!(reply.notices.iter().any(|n| matches!(
        n,
        Notice::ReadManifest { path, lists_dirs: false, loop_files: false, .. }
            if path == "/tmp/files.csv"
    )));
    master
        .report_ready(
            pb::ReportReadyRequest {
                job_id: job_id.clone(),
                worker_id: worker.into(),
                error: None,
            },
            &clock(0),
        )
        .result
        .unwrap();
    {
        let rec = master.state.jobs.get_mut(&job_id).unwrap();
        let queue = rec.file_queue.as_mut().unwrap();
        for i in 0..3 {
            let entry = pb::FileEntry { fs_path: format!("f{i}"), s3_key: String::new() };
            assert_eq!(queue.push(entry).unwrap(), None);
        }
        rec.manifest_done = true;
    }
    let mut batch = |size: i32| {
        master
            .fetch_file_batch(
                pb::FetchFileBatchRequest {
                    job_id: job_id.clone(),
                    worker_id: worker.into(),
                    batch_size: size,
                },
                &clock(0),
            )
            .result
            .unwrap()
    };
    let first = batch(2);
    assert_eq!(first.files.iter().map(|f| f.fs_path.as_str()).collect::<Vec<_>>(), ["f0", "f1"]);
    assert!(first.has_more);
    let second = batch(2);
    assert_eq!(second.files.len(), 1);
    assert!(second.has_more);
    let third = batch(2);
    assert!(third.files.is_empty());
    assert!(!third.has_more);
}

#[test]
fn watchers_are_told_of_every_change_in_order() {
    let mut master = MasterServiceImpl::new(test_state());
    let job_id = master
        .create_job(
            pb::CreateJobRequest { spec: Some(good_proto_spec(1)) },
            &StrMap::new(),
            &clock(0),
        )
        .result
        .unwrap()
        .job_id;
    let mut events =
        master.watch_job(pb::WatchJobRequest { job_id: job_id.clone() }, &clock(0)).unwrap();
    let worker = "h-1-aaaaaaaa";
    master.fetch_job(pb::FetchJobRequest { worker_id: worker.into() }, &clock(0)).result.unwrap();
    master
        .report_ready(
            pb::ReportReadyRequest {
                job_id: job_id.clone(),
                worker_id: worker.into(),
                error: None,
            },
            &clock(0),
        )
        .result
        .unwrap();
    master
        .report_result(
            pb::ReportResultRequest {
                job_id: job_id.clone(),
                result: Some(result_of(worker, true)),
            },
            &clock(10),
        )
        .result
        .unwrap();
    let mut seen = vec![];
    let mut seqs = vec![];
    loop {
        match events.try_recv() {
            Ok(message) => {
                let e = message.unwrap();
                assert_eq!(e.job_id, job_id);
                seqs.push(e.seq);
                seen.push(e.status);
            }
            Err(TryRecvError::Disconnected) => break,
            Err(TryRecvError::Empty) => panic!("the stream of an ended job is closed"),
        }
    }
    assert!(seqs.windows(2).all(|w| w[0] < w[1]), "{seqs:?}");
    seen.dedup();
    assert_eq!(
        seen,
        vec![
            pb::JobStatus::Pending.to_i32(),
            pb::JobStatus::Preparing.to_i32(),
            pb::JobStatus::Running.to_i32(),
            pb::JobStatus::Completed.to_i32(),
        ]
    );
}

#[test]
fn watching_an_ended_job_gives_one_event() {
    let mut master = MasterServiceImpl::new(test_state());
    let job_id = master
        .create_job(
            pb::CreateJobRequest { spec: Some(good_proto_spec(1)) },
            &StrMap::new(),
            &clock(0),
        )
        .result
        .unwrap()
        .job_id;
    master
        .delete_job(pb::DeleteJobRequest { job_id: job_id.clone() }, &clock(0))
        .result
        .unwrap();
    let mut events = master.watch_job(pb::WatchJobRequest { job_id }, &clock(0)).unwrap();
    assert_eq!(events.try_recv().unwrap().unwrap().status, pb::JobStatus::Cancelled.to_i32());
    assert!(matches!(events.try_recv(), Err(TryRecvError::Disconnected)));
}

#[test]
fn unknown_jobs_are_not_found() {
    let mut state = test_state();
    let err = cli_rpc::query_job(&state, pb::QueryJobRequest { job_id: "ghost".into() });
    assert_eq!(err.unwrap_err().code(), Code::NotFound);
    let err =
        cli_rpc::watch_job(&mut state, pb::WatchJobRequest { job_id: "ghost".into() }, &clock(0));
    assert_eq!(err.unwrap_err().code(), Code::NotFound);
    let err =
        cli_rpc::delete_job(&mut state, pb::DeleteJobRequest { job_id: "ghost".into() }, &clock(0));
    assert_eq!(err.result.unwrap_err().code(), Code::NotFound);
}

#[test]
fn deleting_an_ended_job_changes_nothing() {
    let mut state = test_state();
    let job_id = create(&mut state, 1);
    let delete = |state: &mut MasterState| {
        cli_rpc::delete_job(state, pb::DeleteJobRequest { job_id: job_id.clone() }, &clock(0))
    };
    assert!(!delete(&mut state).notices.is_empty());
    let seq = state.event_seq;
    let again = delete(&mut state);
    assert!(again.result.is_ok());
    assert!(again.notices.is_empty());
    assert_eq!(state.event_seq, seq);
    assert!(state.pending_queue.is_empty());
}

#[test]
fn the_latest_jobs_are_listed_first() {
    let mut state = test_state();
    for (id, created) in [("a", 10), ("b", 30), ("c", 20)] {
        let record =
            JobRecord::new(id.into(), redacted_spec(), None, "/mnt/examplefs".into(), 1, created);
        state.jobs.insert(id.into(), record);
    }
    let l = cli_rpc::list_jobs(&state, pb::ListJobsRequest { status_filter: None, limit: 0 });
    let ids: Vec<&str> = l.jobs.iter().map(|j| j.job_id.as_str()).collect();
    assert_eq!(ids, ["b", "c", "a"]);
}

#[test]
fn progress_is_kept_and_told() {
    let mut state = test_state();
    let workers = ["host1-1-aaaaaaaa"];
    let job_id = create_and_fill_slots(&mut state, &workers);
    ready(&mut state, &job_id, workers[0]);
    assert!(!send_progress(&mut state, &job_id, workers[0]).unknown_job);
    assert_eq!(state.jobs.get(&job_id).unwrap().latest_progress.len(), 1);
    assert!(send_progress(&mut state, &job_id, "stranger-1-aaaaaaaa").unknown_job);
    assert_eq!(state.jobs.get(&job_id).unwrap().latest_progress.len(), 1);
}

#[test]
fn event_numbers_count_up_and_wrap() {
    let mut state = test_state();
    let first = state.next_event_seq();
    assert_eq!(state.next_event_seq(), first + 1);
    state.event_seq = i64::MAX;
    assert_eq!(state.next_event_seq(), i64::MAX);
    assert_eq!(state.next_event_seq(), i64::MIN);
}

#[test]
fn the_wall_clock_saturates() {
    assert_eq!(state::wall_time_of(None), 0);
    assert_eq!(state::wall_time_of(Some(1_234)), 1_234);
    assert_eq!(state::wall_time_of(Some(u128::MAX)), i64::MAX);
    assert!(state::now_ms() > 1_600_000_000_000);
}

#[test]
fn the_end_of_a_job_is_told_before_its_channels_end() {
    let mut state = test_state();
    let job_id = create(&mut state, 1);
    let notices = cli_rpc::delete_job(
        &mut state,
        pb::DeleteJobRequest { job_id: job_id.clone() },
        &clock(0),
    )
    .notices;
    assert_eq!(notices.len(), 2);
    assert!(matches!(&notices[0], Notice::Event(e)
        if e.job_id == job_id && e.status == pb::JobStatus::Cancelled.to_i32()));
    assert!(matches!(&notices[1], Notice::End(id) if *id == job_id));

    let worker = "host1-1-aaaaaaaa";
    let job_id = create_and_fill_slots(&mut state, &[worker]);
    ready(&mut state, &job_id, worker);
    let notices = worker_rpc::report_result(
        &mut state,
        pb::ReportResultRequest {
            job_id: job_id.clone(),
            result: Some(result_of(worker, false)),
        },
        &clock(10),
    )
    .notices;
    assert_eq!(notices.len(), 2);
    assert!(matches!(&notices[0], Notice::Event(e)
        if e.job_id == job_id
            && e.status == pb::JobStatus::Failed.to_i32()
            && e.error == state.jobs.get(&job_id).unwrap().error));
    assert!(matches!(&notices[1], Notice::End(id) if *id == job_id));
}

#[test]
fn refused_requests_change_nothing() {
    let mut state = test_state();
    let job_id = create(&mut state, 1);
    let (seq, jobs, waiting) = (state.event_seq, state.jobs.len(), state.pending_queue.len());

    let mut spec = good_proto_spec(1);
    spec.fs_name = "elsewhere".into();
    let step = cli_rpc::create_job(
        &mut state,
        pb::CreateJobRequest { spec: Some(spec) },
        &StrMap::new(),
        &clock(0),
    );
    assert!(step.result.is_err());
    assert!(step.notices.is_empty());

    let bad = "../etc";
    let step = fetch_job(&mut state, pb::FetchJobRequest { worker_id: bad.into() }, &clock(0));
    assert_eq!(step.result.unwrap_err().code(), Code::InvalidArgument);
    assert!(step.notices.is_empty());
    let step = worker_rpc::report_ready(
        &mut state,
        pb::ReportReadyRequest { job_id: job_id.clone(), worker_id: bad.into(), error: None },
        &clock(0),
    );
    assert_eq!(step.result.unwrap_err().code(), Code::InvalidArgument);
    assert!(step.notices.is_empty());
    let step = worker_rpc::report_result(
        &mut state,
        pb::ReportResultRequest { job_id: job_id.clone(), result: None },
        &clock(0),
    );
    assert_eq!(step.result.unwrap_err().code(), Code::InvalidArgument);
    let step = worker_rpc::report_result(
        &mut state,
        pb::ReportResultRequest { job_id: job_id.clone(), result: Some(result_of(bad, true)) },
        &clock(0),
    );
    assert_eq!(step.result.unwrap_err().code(), Code::InvalidArgument);

    assert_eq!((state.event_seq, state.jobs.len(), state.pending_queue.len()), (seq, jobs, waiting));
    assert_eq!(state.jobs.get(&job_id).unwrap().status, pb::JobStatus::Pending);
    assert!(state.worker_active_jobs.is_empty());
}

#[test]
fn places_run_out_in_order() {
    let mut rec =
        JobRecord::new("j".into(), redacted_spec(), None, "/mnt/examplefs".into(), 3, 0);
    for (i, w) in ["h-1-a", "h-2-b", "h-3-c", "h-4-d", "h-5-e"].iter().enumerate() {
        let place = rec.try_assign(w, &clock(i as u64));
        if i < 3 {
            assert_eq!(place, Some(WorkerAssignment { worker_index: i as u32 }));
        } else {
            assert_eq!(place, None);
            assert!(rec.worker_assignments.get(w).is_none());
        }
        assert_eq!(rec.slots_filled() + rec.slots_remaining(), 3);
        assert_eq!(rec.slots_filled(), (i as u32 + 1).min(3));
    }
}

#[test]
fn asking_again_later_gives_the_same_place() {
    let mut state = test_state();
    let mut spec = read_spec();
    spec.target_workers = 2;
    let job_id = cli_rpc::create_job(
        &mut state,
        pb::CreateJobRequest { spec: Some(spec) },
        &probed("/tmp/files.csv", Probe::Readable),
        &clock(0),
    )
    .result
    .unwrap()
    .job_id;
    let next = create(&mut state, 1);
    let (a, b, c) = ("h-1-aaaaaaaa", "h-2-bbbbbbbb", "h-3-cccccccc");
    let first = fetch(&mut state, a);
    assert_eq!(first.job_id, Some(job_id.clone()));
    assert_eq!(first.worker_index, Some(0));
    fetch(&mut state, b);
    fetch(&mut state, c);
    ready(&mut state, &job_id, a);
    ready(&mut state, &job_id, b);
    send_progress(&mut state, &job_id, b);
    staleness::tick_once(&mut state, &clock(0));
    cli_rpc::delete_job(&mut state, pb::DeleteJobRequest { job_id: next }, &clock(0))
        .result
        .unwrap();
    let again = fetch(&mut state, a);
    assert_eq!(again, first);
    assert_eq!(state.jobs.get(&job_id).unwrap().slots_filled(), 2);
    assert_eq!(state.jobs.get(&job_id).unwrap().status, pb::JobStatus::Running);
}
