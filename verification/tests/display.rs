use cvdbench::display::live::{
    fit_center, format_duration, format_duration_short, format_elapsed_compact, format_metric_row,
    format_table_header, moves_no_data, op_label, print_event, worker_label, LiveDisplay, Piece,
};
use cvdbench::display::summary;
use cvdbench::display::summary::{
    format_count, format_duration_ms, print_with_options, Cell, Item, SummaryOptions,
};
use cvdbench::display::table::table_text;
use cvdbench::pb;
use cvdbench::pb::{JobStatus, Number};
use cvdbench::strmap::StrMap;
use cvdbench::time::Clock;

fn float(v: f64) -> Number {
    Number::Float { bits: v.to_bits() }
}

fn at(secs: u128) -> Clock {
    Clock { wall_ms: 0, mono_ns: (1_000 + secs) * 1_000_000_000 }
}

fn metric(iops: f64, avg: f64, total_ops: i64, errors: i64) -> pb::PerformanceMetrics {
    pb::PerformanceMetrics {
        throughput_mbps: float(iops * 2.0),
        iops: float(iops),
        latency_us: Some(pb::LatencyStats { avg: float(avg), ..pb::LatencyStats::default() }),
        error_count: errors,
        error_rate: float(0.0),
        total_ops,
        total_bytes: 0,
        latency_histogram_hdr: vec![],
    }
}

fn progress(worker: &str, elapsed_ms: i64, metric: pb::PerformanceMetrics) -> pb::WorkerProgress {
    let mut per_op = StrMap::new();
    per_op.insert("read".into(), metric);
    pb::WorkerProgress {
        worker_id: worker.into(),
        elapsed_ms,
        per_op,
        phase: pb::WorkerPhase::Measuring.to_i32(),
    }
}

fn event(seq: i64, status: JobStatus, worker_progress: Vec<pb::WorkerProgress>) -> pb::JobEvent {
    pb::JobEvent {
        job_id: "j1".into(),
        status: status.to_i32(),
        worker_progress,
        seq,
        kind: pb::EventKind::Progress.to_i32(),
        ..pb::JobEvent::default()
    }
}

fn head_text(pieces: Vec<Piece>) -> String {
    pieces
        .into_iter()
        .map(|p| match p {
            Piece::Text(t) => t,
            Piece::Count(n) => format!("<{n}>"),
        })
        .collect()
}

#[test]
fn worker_label_uses_pid_and_uuid_prefix() {
    assert_eq!(worker_label("iv-yd974fr4sgcva4fcgd0j-27180-49b2e70d"), "27180-49b2e");
    assert_eq!(worker_label("iv-yd974fr4sgcva4fcgd0j-27292-77c19f68"), "27292-77c19");
}

#[test]
fn format_elapsed_shows_progress_percent() {
    assert_eq!(format_elapsed_compact(183_000, 86_400_000), "3m03   0%");
    assert_eq!(format_elapsed_compact(43_200_000, 86_400_000), "12h00  50%");
}

#[test]
fn other_labels_are_shortened() {
    assert_eq!(worker_label("Aggregate"), "Aggregate");
    assert_eq!(worker_label("abcdefghijklmnop"), "fghijklmnop");
    assert_eq!(worker_label("short"), "short");
    assert_eq!(worker_label("1-2"), "1-2");
    assert_eq!(op_label("metadata.stat"), "stat");
    assert_eq!(op_label("read"), "read");
    assert!(moves_no_data("metadata.stat"));
    assert!(!moves_no_data("read.metadata."));
}

#[test]
fn elapsed_time_is_bounded() {
    assert_eq!(format_elapsed_compact(-5, 1_000), "0s   0%");
    assert_eq!(format_elapsed_compact(i64::MAX / 2, 1), format!("{} 999%", format_duration_short(i64::MAX / 2)));
    assert_eq!(format_elapsed_compact(59_999, 0), "59s");
    assert_eq!(format_duration(3_661_000), "01:01:01");
    assert_eq!(format_duration(0), "00:00:00");
    assert_eq!(format_duration(360_000_000), "100:00:00");
    assert_eq!(format_duration_short(3_660_000), "1h01");
    assert_eq!(format_duration_short(0), "0s");
}

#[test]
fn cells_are_centered_and_cut() {
    assert_eq!(fit_center("ab", 5), " ab  ");
    assert_eq!(fit_center("abcdef", 3), "abc");
    assert_eq!(fit_center("—", 2), "— ");
    let header = format_table_header();
    assert!(header.starts_with("   Worker    │ "));
    assert!(header.ends_with("\n"));
    assert_eq!(header.matches('│').count(), 12);
    let row = format_metric_row(&vec!["x".to_owned(); 13]);
    assert_eq!(row.chars().count(), header.chars().count());
}

#[test]
fn events_are_printed_on_one_line() {
    let mut e = event(7, JobStatus::Running, vec![]);
    assert_eq!(print_event(&e), "[seq=   7] PROGRESS status=RUNNING    workers=0");
    e.error = Some("a\"b".into());
    e.kind = pb::EventKind::StatusChange.to_i32();
    assert_eq!(print_event(&e), "[seq=   7] STATUS   status=RUNNING    workers=0 error=\"a\\\"b\"");
}

#[test]
fn samples_are_spaced_out() {
    let mut live = LiveDisplay::new("j1".into(), 10_000, &at(0));
    assert!(live.should_render(&at(0)));
    let first = live.render(&at(0));
    assert_eq!(
        head_text(first.head.unwrap()),
        "Job ID: j1 | Elapsed: 00:00:00 / 00:00:10 | Status: UNSPECIFIED\nTip: Press Ctrl+C to detach or cancel job\n"
    );
    assert!(!live.should_render(&at(1)));
    assert!(live.should_render(&at(2)));
    assert!(live.render(&at(2)).head.is_none());
}

#[test]
fn rows_follow_the_latest_progress() {
    let mut live = LiveDisplay::new_with_options("j1".into(), 0, true, &at(0));
    live.apply(&event(
        1,
        JobStatus::Running,
        vec![
            progress("w2", 2_000, metric(5.0, 10.0, 4, 1)),
            progress("w1", 1_000, metric(7.0, 40.0, 2, 0)),
        ],
    ));
    live.apply(&event(2, JobStatus::Running, vec![progress("w1", 3_000, metric(8.0, 40.0, 2, 0))]));
    let sample = live.render(&at(9));
    assert_eq!(
        head_text(sample.head.unwrap()),
        "Job ID: j1 | Elapsed: 00:00:03 | Status: RUNNING\nTip: Press Ctrl+C to detach or cancel job\n"
    );
    let workers: Vec<(&str, i64)> =
        sample.worker_rows.iter().map(|r| (r.worker.as_str(), r.elapsed_ms)).collect();
    assert_eq!(workers, [("w1", 3_000), ("w2", 2_000)]);
    assert_eq!(sample.aggregate_rows.len(), 1);
    let row = &sample.aggregate_rows[0];
    assert_eq!(row.worker, "Aggregate");
    assert_eq!(row.metrics.total_ops, 6);
    assert_eq!(row.metrics.error_count, 1);
    let mut rates: Vec<f64> = row
        .metrics
        .ops_per_sec
        .iter()
        .map(|n| match n {
            Number::Float { bits } => f64::from_bits(*bits),
            other => panic!("unexpected {other:?}"),
        })
        .collect();
    rates.sort_by(f64::total_cmp);
    assert_eq!(rates.iter().sum::<f64>(), 13.0);
}

#[test]
fn an_ended_job_shows_its_results() {
    let mut live = LiveDisplay::new_with_options("j1".into(), 0, true, &at(0));
    let mut total_per_op = StrMap::new();
    total_per_op.insert("read".to_owned(), metric(9.0, 1.0, 12, 0));
    let mut e = event(3, JobStatus::Completed, vec![]);
    e.dirs_scanned = 4;
    e.aggregated = Some(pb::AggregatedMetrics {
        total: None,
        total_per_op,
        per_worker: vec![pb::WorkerResult {
            worker_id: "w1".into(),
            effective_duration_ms: 61_000,
            ..pb::WorkerResult::default()
        }],
    });
    live.apply(&e);
    let sample = live.render(&at(1));
    assert_eq!(
        head_text(sample.head.unwrap()),
        "Job ID: j1 | Elapsed: 00:01:01 | Status: COMPLETED\nScan: dirs=<4> files=<0> duration=00:00:00\n"
    );
    assert_eq!(sample.aggregate_rows[0].metrics.total_ops, 12);
}

#[test]
fn counts_are_grouped() {
    assert_eq!(format_count(0), "0");
    assert_eq!(format_count(999), "999");
    assert_eq!(format_count(1_000), "1,000");
    assert_eq!(format_count(-1_234_567), "-1,234,567");
    assert_eq!(format_duration_ms(-1), "0ms");
    assert_eq!(format_duration_ms(999), "999ms");
    assert_eq!(format_duration_ms(1_005), "1.005s");
    assert_eq!(format_duration_ms(61_000), "1m 1s");
    assert_eq!(format_duration_ms(3_661_999), "1h 1m 1s");
}

#[test]
fn tables_are_as_wide_as_their_cells() {
    let headers = vec!["A".to_owned(), "Long".to_owned()];
    let rows = vec![vec!["é—x".to_owned(), "1".to_owned()]];
    assert_eq!(
        table_text(&headers, &rows),
        "┌─────┬──────┐\n│ A   │ Long │\n├─────┼──────┤\n│ é—x │ 1    │\n└─────┴──────┘\n"
    );
}

fn lines(items: &[Item]) -> Vec<String> {
    items
        .iter()
        .filter_map(|i| match i {
            Item::Line(l) => Some(l.clone()),
            _ => None,
        })
        .collect()
}

#[test]
fn a_summary_tells_what_became_of_the_job() {
    let mut total_per_op = StrMap::new();
    total_per_op.insert("write".to_owned(), metric(1.0, 1.0, 1, 0));
    total_per_op.insert("read".to_owned(), metric(2.0, 1.0, 1, 0));
    let worker = |id: &str, start: i64, success: bool| pb::WorkerResult {
        worker_id: id.into(),
        success,
        measure_start_ms: start,
        measure_end_ms: start + 10,
        effective_duration_ms: 10,
        per_op: {
            let mut m = StrMap::new();
            m.insert("read".to_owned(), metric(1.0, 1.0, 5, 0));
            m
        },
        ..pb::WorkerResult::default()
    };
    let workers = vec![worker("a", 0, true), worker("b", 100, true), worker("c", 0, false)];
    let mut q = pb::QueryJobResponse {
        job: Some(pb::Job {
            job_id: "j1".into(),
            spec: Some(pb::BenchSpec { duration: "1m".into(), ..pb::BenchSpec::default() }),
            status: JobStatus::Failed.to_i32(),
            created_at: 0,
        }),
        worker_results: workers.clone(),
        aggregated: Some(pb::AggregatedMetrics {
            total: Some(metric(3.0, 1.0, 2, 0)),
            total_per_op,
            per_worker: workers,
        }),
        error: Some("boom".into()),
        run_workers: 3,
        dirs_scanned: 1_500,
        files_scanned: 0,
        scan_duration_ms: 20,
    };
    let items = print_with_options(&q, SummaryOptions { verbose: true });
    let text = lines(&items);
    for line in [
        "Job Summary",
        "Job ID  : j1",
        "Status  : FAILED",
        "Workers : 3 reported, 2 success, 1 failed",
        "Progress: 100%",
        "Duration : 1m",
        "Workers  : target=0 run=3",
        "- Worker timing is misaligned; aggregate metrics may be less reliable",
        "- Latency histograms incomplete: 2 worker(s) missing histogram",
        "boom",
    ] {
        assert!(text.iter().any(|l| l == line), "{line:?} is missing in {text:?}");
    }
    let scopes: Vec<Vec<String>> = items
        .iter()
        .filter_map(|i| match i {
            Item::Table { rows, .. } => Some(
                rows.iter()
                    .map(|r| match &r[0] {
                        Cell::Text(t) => t.clone(),
                        other => panic!("unexpected {other:?}"),
                    })
                    .collect(),
            ),
            _ => None,
        })
        .collect();
    assert_eq!(scopes[0], ["1,500"]);
    assert_eq!(scopes[1], ["aggregate", "read", "write"]);
    assert_eq!(scopes[2], ["aggregate", "read", "write"]);

    q.job.as_mut().unwrap().status = JobStatus::Running.to_i32();
    let items = summary::print(&q);
    assert!(items.iter().any(|i| matches!(
        i,
        Item::Share { elapsed_ms: 10, duration_ms: 60_000, tail } if tail == "% (10ms/1m 0s)"
    )));
    assert!(!lines(&items).iter().any(|l| l == "Workload"));

    q.job = None;
    assert_eq!(
        lines(&summary::print(&q)),
        ["(empty QueryJobResponse — job not found?)".to_owned()]
    );
}
