use cvdbench::config::{MasterConfig, SchedulerConfig};
use cvdbench::pb;
use cvdbench::pb::Number;
use cvdbench::prometheus::{answer, escape_label, parse_path, render, status_label, Line};
use cvdbench::state::job::JobRecord;
use cvdbench::state::MasterState;
use cvdbench::strmap::StrMap;

fn float(v: f64) -> Number {
    Number::Float { bits: v.to_bits() }
}

fn text(lines: Vec<Line>) -> String {
    let mut body = String::new();
    for line in lines {
        match line {
            Line::Text(t) => body.push_str(&t),
            Line::Sample { series, value } => {
                let v = match value {
                    Number::Float { bits } => f64::from_bits(bits),
                    Number::Ratio { num, den } => num as f64 / den as f64,
                    other => panic!("no histogram was given for {other:?}"),
                };
                body.push_str(&format!("{series} {}", if v.is_finite() { v } else { 0.0 }));
            }
        }
        body.push('\n');
    }
    body
}

fn master() -> MasterState {
    let mut filesystems = StrMap::new();
    filesystems.insert("tmpfs".to_owned(), "/mnt/tmpfs".to_owned());
    MasterState::new(MasterConfig {
        listen: "127.0.0.1:0".into(),
        metrics_listen: None,
        scheduler: SchedulerConfig::default(),
        filesystems,
    })
}

fn record(job_id: &str) -> JobRecord {
    JobRecord::new(
        job_id.to_owned(),
        pb::BenchSpec { fs_name: "tmpfs".to_owned(), ..pb::BenchSpec::default() },
        None,
        "/mnt/tmpfs".into(),
        1,
        1,
    )
}

#[test]
fn render_worker_progress_metrics() {
    let mut state = master();
    let mut record = record("job-1");
    record.status = pb::JobStatus::Running;
    let mut per_op = StrMap::new();
    per_op.insert(
        "read.open".to_owned(),
        pb::PerformanceMetrics {
            throughput_mbps: float(0.0),
            iops: float(10.0),
            latency_us: Some(pb::LatencyStats {
                p50: float(10.0),
                p95: float(20.0),
                p99: float(30.0),
                p999: float(40.0),
                max: float(50.0),
                avg: float(15.0),
            }),
            error_count: 0,
            error_rate: float(0.0),
            total_ops: 10,
            total_bytes: 0,
            latency_histogram_hdr: vec![],
        },
    );
    record.latest_progress.insert(
        "worker-1".to_owned(),
        pb::WorkerProgress {
            worker_id: "worker-1".to_owned(),
            elapsed_ms: 1234,
            per_op,
            phase: pb::WorkerPhase::Measuring.to_i32(),
        },
    );
    state.jobs.insert(record.job_id.clone(), record);

    let body = text(render(&state));
    assert!(body
        .contains("cvdbench_job_info{job_id=\"job-1\",status=\"running\",fs_name=\"tmpfs\"} 1"));
    assert!(body.contains(
        "cvdbench_worker_op_iops{job_id=\"job-1\",worker_id=\"worker-1\",op=\"read.open\"} 10"
    ));
    assert!(body.contains("cvdbench_worker_op_latency_us{job_id=\"job-1\",worker_id=\"worker-1\",op=\"read.open\",stat=\"p99\"} 30"));
    assert!(body.contains(
        "cvdbench_worker_elapsed_ms{job_id=\"job-1\",worker_id=\"worker-1\"} 1234\n"
    ));
}

#[test]
fn render_terminal_worker_result_metrics() {
    let mut state = master();
    let mut record = record("job-2");
    record.status = pb::JobStatus::Completed;
    let mut per_op = StrMap::new();
    per_op.insert(
        "read".to_owned(),
        pb::PerformanceMetrics {
            throughput_mbps: float(123.0),
            iops: float(456.0),
            latency_us: None,
            error_count: 0,
            error_rate: float(0.0),
            total_ops: 789,
            total_bytes: 1024,
            latency_histogram_hdr: vec![],
        },
    );
    record.latest_progress.insert(
        "worker-2".to_owned(),
        pb::WorkerProgress {
            worker_id: "worker-2".to_owned(),
            elapsed_ms: 60000,
            per_op,
            phase: pb::WorkerPhase::Finished.to_i32(),
        },
    );
    state.jobs.insert(record.job_id.clone(), record);

    let body = text(render(&state));
    assert!(body
        .contains("cvdbench_job_info{job_id=\"job-2\",status=\"completed\",fs_name=\"tmpfs\"} 1"));
    assert!(body.contains("cvdbench_worker_phase{job_id=\"job-2\",worker_id=\"worker-2\"} 6"));
    assert!(body.contains(
        "cvdbench_worker_op_iops{job_id=\"job-2\",worker_id=\"worker-2\",op=\"read\"} 456"
    ));
}

#[test]
fn jobs_are_rendered_in_order_of_their_ids() {
    let mut state = master();
    for id in ["b", "a", "\u{e9}", "ab"] {
        state.jobs.insert(id.to_owned(), record(id));
    }
    let body = text(render(&state));
    let ids: Vec<&str> = body
        .lines()
        .filter_map(|l| l.strip_prefix("cvdbench_job_info{job_id=\""))
        .map(|l| l.split('"').next().unwrap())
        .collect();
    let mut sorted = ids.clone();
    sorted.sort();
    assert_eq!(ids, sorted);
    assert_eq!(ids.len(), 4);
    assert!(body.starts_with(
        "# HELP cvdbench_job_info cvdbench job metadata.\n# TYPE cvdbench_job_info gauge\n"
    ));
}

#[test]
fn labels_stay_on_one_line() {
    assert_eq!(escape_label("a\\b\"c\nd"), "a\\\\b\\\"c\\nd");
    assert!(!escape_label("\n\n").contains('\n'));
    assert_eq!(status_label(pb::JobStatus::Unspecified), "unspecified");
    assert_eq!(status_label(pb::JobStatus::Cancelled), "cancelled");
}

#[test]
fn the_path_is_the_second_word() {
    for request in [
        "GET /metrics HTTP/1.1\r\nHost: x\r\n",
        "GET /metrics",
        "  GET\t /metrics  HTTP/1.1",
    ] {
        assert_eq!(parse_path(request), "/metrics", "{request:?}");
    }
    for request in ["", "GET", "\nGET /metrics", "   "] {
        assert_eq!(parse_path(request), "/", "{request:?}");
    }
}

#[test]
fn only_metrics_are_served() {
    assert_eq!(
        answer("GET /metrics HTTP/1.1\r\n", "é 1\n"),
        "HTTP/1.1 200 OK\r\nContent-Type: text/plain; version=0.0.4; charset=utf-8\r\nContent-Length: 5\r\nConnection: close\r\n\r\né 1\n"
    );
    assert_eq!(
        answer("GET / HTTP/1.1\r\n", "x 1\n"),
        "HTTP/1.1 404 Not Found\r\nContent-Type: text/plain; charset=utf-8\r\nContent-Length: 10\r\nConnection: close\r\n\r\nnot found\n"
    );
}
