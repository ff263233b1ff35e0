use cvdbench::output::{build_report, write_report, writes_rows, ReportFile};
use cvdbench::pb;
use cvdbench::pb::Number;
use cvdbench::spec::redact::REDACTED;
use cvdbench::strmap::StrMap;
use cvdbench::time::Duration;

fn float(v: f64) -> Number {
    Number::Float { bits: v.to_bits() }
}

fn metric(total_ops: i64, total_bytes: i64, errs: i64) -> pb::PerformanceMetrics {
    pb::PerformanceMetrics {
        throughput_mbps: float(100.0),
        iops: float(1000.0),
        latency_us: Some(pb::LatencyStats {
            p50: float(10.0),
            p95: float(20.0),
            p99: float(30.0),
            p999: float(40.0),
            max: float(50.0),
            avg: float(15.0),
        }),
        error_count: errs,
        error_rate: float(if total_ops > 0 { errs as f64 / total_ops as f64 } else { 0.0 }),
        total_ops,
        total_bytes,
        latency_histogram_hdr: vec![],
    }
}

fn worker_result(id: &str, success: bool, ms_start: i64, ms_end: i64) -> pb::WorkerResult {
    let mut per_op = StrMap::new();
    per_op.insert("read".to_owned(), metric(100, 4096 * 100, 0));
    pb::WorkerResult {
        worker_id: id.into(),
        per_op,
        consistency_errors: vec![],
        success,
        error: if success { None } else { Some("oops".into()) },
        effective_duration_ms: ms_end - ms_start,
        measure_start_ms: ms_start,
        measure_end_ms: ms_end,
    }
}

fn sample_query(status: pb::JobStatus, workers: &[pb::WorkerResult]) -> pb::QueryJobResponse {
    let spec = pb::BenchSpec {
        fs_name: "tmpfs".into(),
        io_mode: "seq".into(),
        io_aligned: true,
        direct_io: false,
        block_size: "4Ki".into(),
        duration: "1s".into(),
        warmup: String::new(),
        target_workers: 2,
        read: Some(pb::ReadConfig {
            concurrency: 1,
            file_manifest: "m.csv".into(),
            ..Default::default()
        }),
        write: None,
        metadata: None,
    };
    let mut total_per_op = StrMap::new();
    total_per_op.insert("read".to_owned(), metric(200, 8192 * 100, 0));
    let agg = pb::AggregatedMetrics {
        total: Some(metric(200, 8192 * 100, 0)),
        total_per_op,
        per_worker: workers.to_vec(),
    };
    pb::QueryJobResponse {
        job: Some(pb::Job {
            job_id: "j1".into(),
            spec: Some(spec),
            status: status.to_i32(),
            created_at: 0,
        }),
        worker_results: workers.to_vec(),
        aggregated: Some(agg),
        error: None,
        run_workers: i32::try_from(workers.len()).unwrap(),
        dirs_scanned: 0,
        files_scanned: 0,
        scan_duration_ms: 0,
    }
}

#[test]
fn build_report_uses_lowercase_status_and_seconds() {
    let workers =
        vec![worker_result("w1", true, 1000, 2000), worker_result("w2", true, 1000, 2000)];
    let q = sample_query(pb::JobStatus::Completed, &workers);
    let r = build_report(&q);
    assert_eq!(r.status, "completed");
    assert_eq!(r.duration_secs, Duration::from_secs(1));
    assert_eq!(r.effective_duration_ms, 1_000);
    assert!(!r.window_misaligned);
    assert_eq!(r.target_workers, 2);
    assert_eq!(r.run_workers, 2);
}

#[test]
fn build_report_prefers_query_run_workers() {
    let workers = vec![worker_result("w1", true, 1000, 2000)];
    let mut q = sample_query(pb::JobStatus::Failed, &workers);
    q.run_workers = 2;

    let r = build_report(&q);
    assert_eq!(r.workers.len(), 1);
    assert_eq!(r.run_workers, 2);
}

#[test]
fn build_report_marks_window_misaligned() {
    let workers = vec![worker_result("w1", true, 0, 1000), worker_result("w2", true, 5000, 6000)];
    let q = sample_query(pb::JobStatus::Completed, &workers);
    let r = build_report(&q);
    assert!(r.window_misaligned);
    assert_eq!(r.effective_duration_ms, 1_000);
}

#[test]
fn build_report_extracts_error_from_failed_worker() {
    let workers = vec![worker_result("w1", true, 0, 1000), worker_result("w2", false, 0, 500)];
    let q = sample_query(pb::JobStatus::Failed, &workers);
    let r = build_report(&q);
    assert_eq!(r.error.as_deref(), Some("oops"));
    assert_eq!(r.status, "failed");
}

#[test]
fn build_report_prefers_job_level_error() {
    let workers = vec![worker_result("w1", false, 0, 500)];
    let mut q = sample_query(pb::JobStatus::Failed, &workers);
    q.error = Some("manifest reader: bad path".into());
    let r = build_report(&q);
    assert_eq!(r.error.as_deref(), Some("manifest reader: bad path"));
}

#[test]
fn enforce_redaction_replaces_credentials_when_master_missed() {
    let workers = vec![worker_result("w1", true, 0, 1000)];
    let mut q = sample_query(pb::JobStatus::Completed, &workers);
    if let Some(read) = q.job.as_mut().unwrap().spec.as_mut().unwrap().read.as_mut() {
        read.s3_consistency_check = Some(pb::ConsistencyConfig {
            bucket_name: "b".into(),
            bucket_url: "http://s3".into(),
            access_key: "AK_LEAKED".into(),
            secret_key: "SK_LEAKED".into(),
            region: "us-east-1".into(),
            prefix: String::new(),
            session_token: "TOK_LEAKED".into(),
        });
    }
    let r = build_report(&q);
    let s3 = r.spec.read.as_ref().unwrap().s3_consistency_check.as_ref().unwrap();
    assert_eq!(s3.access_key, REDACTED);
    assert_eq!(s3.secret_key, REDACTED);
    assert_eq!(s3.session_token, REDACTED);
}

#[test]
fn csv_rows_include_aggregate_total_and_per_worker_per_op() {
    let workers =
        vec![worker_result("w1", true, 1000, 2000), worker_result("w2", true, 1000, 2000)];
    let q = sample_query(pb::JobStatus::Completed, &workers);
    let r = build_report(&q);
    let rows = r.csv_rows();
    assert_eq!(rows.len(), 4);
    assert_eq!(rows[0].worker_id, "*");
    assert_eq!(rows[0].op, "*");
    assert_eq!(rows[1].worker_id, "*");
    assert_eq!(rows[1].op, "read");
    assert!(rows[0].success);
    assert_eq!(rows[2].worker_id, "w1");
    assert_eq!(rows[3].worker_id, "w2");
    assert_eq!(rows[3].total_ops, 100);
    assert_eq!(rows[3].p99_us, float(30.0));
    assert_eq!(rows[3].effective_duration_ms, 1_000);
}

#[test]
fn csv_aggregate_rows_mark_failed_job_unsuccessful() {
    let workers = vec![worker_result("w1", false, 0, 500)];
    let q = sample_query(pb::JobStatus::Failed, &workers);
    let r = build_report(&q);
    let rows = r.csv_rows();
    assert!(!rows[0].success);
    assert!(!rows[1].success);
}

#[test]
fn the_kind_of_file_follows_the_extension() {
    let workers = vec![worker_result("w1", true, 0, 1000)];
    let q = sample_query(pb::JobStatus::Completed, &workers);
    assert!(matches!(write_report("nested/RESULT.CSV", &q), ReportFile::Rows(rows) if rows.len() == 3));
    match write_report("nested/result.json", &q) {
        ReportFile::Document(r) => {
            assert_eq!(r.status, "completed");
            assert!(!r.window_misaligned);
        }
        ReportFile::Rows(_) => panic!("a document was asked for"),
    }
    assert!(writes_rows("a.b.csv"));
    assert!(!writes_rows("csv"));
    assert!(!writes_rows("a.csv/b"));
    assert!(!writes_rows(".csv"));
    assert!(writes_rows("a.csv/"));
    assert!(writes_rows("a.csv/."));
    assert!(!writes_rows("a.csv/.."));
}

#[test]
fn a_query_without_a_job_gives_an_empty_report() {
    let r = build_report(&pb::QueryJobResponse::default());
    assert_eq!(r.job_id, "");
    assert_eq!(r.status, "unspecified");
    assert_eq!(r.duration_secs, Duration::from_secs(0));
    assert!(r.aggregated.is_none());
    assert!(r.csv_rows().is_empty());
}

#[test]
fn rows_come_in_the_order_of_operations() {
    let workers = vec![worker_result("w1", true, 0, 1000)];
    let mut r = build_report(&sample_query(pb::JobStatus::Completed, &workers));
    let report = *r.workers[0].per_op.get("read").unwrap();
    for op in ["write", "append", "metadata.stat"] {
        r.aggregated.as_mut().unwrap().per_op.insert(op.to_owned(), report);
        r.workers[0].per_op.insert(op.to_owned(), report);
    }
    let told: Vec<(String, String)> =
        r.csv_rows().into_iter().map(|row| (row.worker_id, row.op)).collect();
    let told: Vec<(&str, &str)> = told.iter().map(|(w, o)| (w.as_str(), o.as_str())).collect();
    assert_eq!(
        told,
        [
            ("*", "*"),
            ("*", "append"),
            ("*", "metadata.stat"),
            ("*", "read"),
            ("*", "write"),
            ("w1", "append"),
            ("w1", "metadata.stat"),
            ("w1", "read"),
            ("w1", "write"),
        ]
    );
}
