use cvdbench::metrics::aggregate::{aggregate, AggregatedSummary};
use cvdbench::metrics::histogram::{decode, encode_v2_compressed, HistogramError, LatencyHistogram};
use cvdbench::metrics::{MetricsRegistry, PerOpMetrics};
use cvdbench::pb;
use cvdbench::pb::Number;
use cvdbench::strmap::StrMap;
use flate2::write::ZlibEncoder;
use hdrhistogram::serialization::{Deserializer, Serializer, V2DeflateSerializer, V2Serializer};
use hdrhistogram::Histogram;

fn read_histogram(bytes: &[u8]) -> Histogram<u64> {
    Deserializer::new().deserialize(&mut std::io::Cursor::new(bytes)).unwrap()
}

fn value(n: Number, histogram: &[u8]) -> f64 {
    match n {
        Number::Float { bits } => f64::from_bits(bits),
        Number::Ratio { num, den } => num as f64 / den as f64,
        Number::Quantile { permille } => {
            read_histogram(histogram).value_at_quantile(permille as f64 / 1000.0) as f64
        }
        Number::Mean => read_histogram(histogram).mean(),
    }
}

fn one_op(name: &str, m: pb::PerformanceMetrics) -> StrMap<pb::PerformanceMetrics> {
    let mut per_op = StrMap::new();
    per_op.insert(name.to_owned(), m);
    per_op
}

fn metrics_pb(latencies_us: &[u64], bytes_per_op: u64) -> pb::PerformanceMetrics {
    let mut m = PerOpMetrics::new();
    for &l in latencies_us {
        m.record_op(l, bytes_per_op);
    }
    m.snapshot(1_000)
}

fn worker_result(
    worker_id: &str,
    per_op: StrMap<pb::PerformanceMetrics>,
    success: bool,
    ms_start: i64,
    ms_end: i64,
) -> pb::WorkerResult {
    pb::WorkerResult {
        worker_id: worker_id.into(),
        per_op,
        consistency_errors: vec![],
        success,
        error: None,
        effective_duration_ms: ms_end - ms_start,
        measure_start_ms: ms_start,
        measure_end_ms: ms_end,
    }
}

fn total(summary: &AggregatedSummary) -> &pb::PerformanceMetrics {
    summary.aggregated.total.as_ref().unwrap()
}

#[test]
fn record_and_snapshot_round_trip() {
    let mut m = PerOpMetrics::new();
    m.record_op(100, 4096);
    m.record_op(200, 4096);
    m.record_op(500, 4096);
    let pb_metrics = m.snapshot(1_000);
    assert_eq!(pb_metrics.total_ops, 3);
    assert_eq!(pb_metrics.total_bytes, 12288);
    let stats = pb_metrics.latency_us.as_ref().unwrap();
    let bytes = &pb_metrics.latency_histogram_hdr;
    assert!(value(stats.p50, bytes) >= 100.0);
    assert!(value(stats.max, bytes) >= 500.0);
    assert!(!pb_metrics.latency_histogram_hdr.is_empty());
    assert_eq!(value(pb_metrics.iops, bytes), 3.0);
    assert_eq!(value(pb_metrics.throughput_mbps, bytes), 0.012288);
}

#[test]
fn registry_returns_same_arc_for_same_op() {
    let mut reg = MetricsRegistry::new();
    reg.op("write").record_op(50, 1);
    assert_eq!(reg.op("write").totals(), (1, 1, 0));
}

#[test]
fn snapshot_pb_includes_all_ops() {
    let mut reg = MetricsRegistry::new();
    reg.op("write").record_op(10, 100);
    reg.op("write_verify").record_op(20, 100);
    let snap = reg.snapshot_pb(1_000);
    assert!(snap.contains_key("write"));
    assert!(snap.contains_key("write_verify"));
}

#[test]
fn record_error_advances_total_ops_and_error_count() {
    let mut m = PerOpMetrics::new();
    m.record_op(10, 0);
    m.record_error();
    let (ops, _, errs) = m.totals();
    assert_eq!(ops, 2);
    assert_eq!(errs, 1);
}

#[test]
fn snapshot_with_only_errors_does_not_emit_nan() {
    let mut m = PerOpMetrics::new();
    m.record_error();
    m.record_error();
    let pb = m.snapshot(1_000);
    let stats = pb.latency_us.unwrap();
    for n in [stats.p50, stats.p95, stats.p99, stats.p999, stats.max, stats.avg] {
        let v = value(n, &pb.latency_histogram_hdr);
        assert!(v.is_finite(), "expected finite, got {v}");
        assert_eq!(v, 0.0);
    }
    assert_eq!(value(pb.error_rate, &pb.latency_histogram_hdr), 1.0);
}

#[test]
fn latencies_above_the_top_are_counted_at_the_top() {
    let mut m = PerOpMetrics::new();
    m.record_op(u64::MAX, 1);
    m.record_op(0, 1);
    let pb = m.snapshot(1_000);
    let h = read_histogram(&pb.latency_histogram_hdr);
    assert_eq!(h.len(), 2);
    assert!(h.max() >= 3_600_000_000);
    assert_eq!(h.min(), 0);
}

#[test]
fn a_span_of_no_time_counts_as_the_least_time() {
    let mut m = PerOpMetrics::new();
    m.record_op(10, 1_000_000);
    let pb = m.snapshot(0);
    assert!(value(pb.iops, &pb.latency_histogram_hdr).is_finite());
}

#[test]
fn aggregate_two_workers_sum_counters_and_merge_histograms() {
    let workers = vec![
        worker_result(
            "w1",
            one_op("write", metrics_pb(&[100, 200, 300, 400, 500], 4096)),
            true,
            1_000,
            2_000,
        ),
        worker_result(
            "w2",
            one_op("write", metrics_pb(&[110, 210, 310, 410, 510], 4096)),
            true,
            1_000,
            2_000,
        ),
    ];
    let summary = aggregate(&workers);

    let total = total(&summary);
    assert_eq!(total.total_ops, 10);
    assert_eq!(total.total_bytes, 10 * 4096);
    assert!((value(total.iops, &total.latency_histogram_hdr) - 10.0).abs() < 1e-6);
    assert!(summary.aggregated.total_per_op.contains_key("write"));
    assert!(!summary.window_misaligned);
    assert_eq!(summary.effective_window_ms, 1_000);
}

#[test]
fn aggregate_skips_failed_workers() {
    let workers = vec![
        worker_result("ok", one_op("write", metrics_pb(&[100, 200], 1000)), true, 0, 1000),
        worker_result("fail", StrMap::new(), false, 0, 1000),
    ];
    let summary = aggregate(&workers);
    assert_eq!(total(&summary).total_ops, 2);
    assert_eq!(summary.success_worker_count, 1);
}

#[test]
fn aggregate_marks_window_misaligned_for_disjoint_windows() {
    let workers = vec![
        worker_result("a", one_op("write", metrics_pb(&[100], 1)), true, 0, 1000),
        worker_result("b", one_op("write", metrics_pb(&[200], 1)), true, 5000, 6000),
    ];
    let summary = aggregate(&workers);
    assert!(summary.window_misaligned);
    assert_eq!(summary.effective_window_ms, 1000);
}

#[test]
fn merge_op_histograms_double_count() {
    let workers = vec![
        worker_result("a", one_op("write", metrics_pb(&[100; 1000], 0)), true, 0, 1000),
        worker_result("b", one_op("write", metrics_pb(&[100; 1000], 0)), true, 0, 1000),
    ];
    let summary = aggregate(&workers);
    let merged_pb = summary.aggregated.total_per_op.get("write").unwrap();
    assert_eq!(merged_pb.total_ops, 2000);
    assert!(decode(&merged_pb.latency_histogram_hdr).is_ok());
    let merged_hist = read_histogram(&merged_pb.latency_histogram_hdr);
    assert_eq!(merged_hist.len(), 2000);
    assert_eq!(merged_hist.value_at_quantile(0.5), 100);
}

#[test]
fn empty_workers_yields_zero_aggregate() {
    let summary = aggregate(&[]);
    assert_eq!(total(&summary).total_ops, 0);
    assert_eq!(total(&summary).total_bytes, 0);
    assert_eq!(summary.effective_window_ms, 0);
}

#[test]
fn aggregate_includes_error_count_from_failed_workers() {
    let succ = one_op("read", metrics_pb(&[100, 100, 100, 100, 100], 4096));
    let mut m_fail = PerOpMetrics::new();
    m_fail.record_op(50, 100);
    m_fail.record_op(60, 100);
    m_fail.record_error();
    let fail = one_op("read", m_fail.snapshot(1_000));

    let workers = vec![
        worker_result("ok", succ, true, 0, 1000),
        worker_result("fail", fail, false, 0, 1000),
    ];
    let summary = aggregate(&workers);
    assert_eq!(total(&summary).total_ops, 5 + 3);
    assert_eq!(total(&summary).error_count, 1);
}

#[test]
fn failed_only_aggregate_uses_failed_worker_duration() {
    let mut m_fail = PerOpMetrics::new();
    m_fail.record_op(50, 1_000_000);
    m_fail.record_op(60, 1_000_000);
    m_fail.record_error();
    let fail = one_op("read", m_fail.snapshot(1_000));

    let workers = vec![worker_result("fail", fail, false, 10_000, 12_000)];
    let summary = aggregate(&workers);
    let total = total(&summary);

    assert_eq!(summary.effective_window_ms, 2_000);
    assert!(!summary.window_misaligned);
    assert_eq!(total.total_ops, 3);
    assert_eq!(total.total_bytes, 2_000_000);
    assert_eq!(total.error_count, 1);
    assert!((value(total.throughput_mbps, &total.latency_histogram_hdr) - 1.0).abs() < 1e-6);
    assert!((value(total.iops, &total.latency_histogram_hdr) - 1.5).abs() < 1e-6);
}

#[test]
fn single_worker_does_not_mark_misaligned() {
    let per_op = one_op("write", metrics_pb(&[100, 200], 4096));
    let workers = vec![worker_result("solo", per_op, true, 1_000, 2_000)];
    let summary = aggregate(&workers);
    assert!(!summary.window_misaligned);
    assert_eq!(summary.effective_window_ms, 1_000);
}

#[test]
fn workers_without_histograms_are_counted() {
    let mut bare = metrics_pb(&[100], 1);
    bare.latency_histogram_hdr = vec![];
    let workers = vec![
        worker_result("a", one_op("write", bare), true, 0, 1000),
        worker_result("b", one_op("write", metrics_pb(&[100], 1)), true, 0, 1000),
    ];
    let summary = aggregate(&workers);
    assert_eq!(summary.missing_histogram_count, 1);
    assert_eq!(summary.success_worker_count, 2);
    assert_eq!(total(&summary).total_ops, 2);
}

#[test]
fn totals_are_the_sums_over_workers_and_operations() {
    let mut per_op = one_op("write", metrics_pb(&[10, 20], 7));
    per_op.insert("read".to_owned(), metrics_pb(&[30], 5));
    let workers = vec![
        worker_result("a", per_op, true, 0, 1000),
        worker_result("b", one_op("read", metrics_pb(&[40, 50, 60], 3)), false, 0, 1000),
    ];
    let summary = aggregate(&workers);
    assert_eq!(total(&summary).total_ops, 6);
    assert_eq!(total(&summary).total_bytes, 2 * 7 + 5 + 3 * 3);
    assert_eq!(summary.aggregated.total_per_op.get("read").unwrap().total_ops, 4);
}

fn make_hist() -> (Histogram<u64>, LatencyHistogram) {
    let mut h = Histogram::<u64>::new_with_max(60_000_000, 3).unwrap();
    for v in [10u64, 20, 30, 100, 200, 500, 1_000] {
        h.record(v).unwrap();
    }
    let mut bytes = Vec::new();
    V2DeflateSerializer::new().serialize(&h, &mut bytes).unwrap();
    let own = decode(&bytes).unwrap();
    (h, own)
}

#[test]
fn round_trip_preserves_quantiles() {
    let (h, own) = make_hist();
    let bytes = encode_v2_compressed(&own).unwrap();
    assert!(!bytes.is_empty());
    assert!(decode(&bytes).is_ok());
    let h2 = read_histogram(&bytes);
    assert_eq!(h.value_at_quantile(0.5), h2.value_at_quantile(0.5));
    assert_eq!(h.value_at_quantile(0.99), h2.value_at_quantile(0.99));
    assert_eq!(h.len(), h2.len());
    assert_eq!(h.max(), h2.max());
}

#[test]
fn merging_after_decode_is_associative() {
    let (h1, own1) = make_hist();
    let (_, own2) = make_hist();
    let bytes1 = encode_v2_compressed(&own1).unwrap();
    let bytes2 = encode_v2_compressed(&own2).unwrap();
    let report = |bytes: Vec<u8>| {
        let mut m = metrics_pb(&[], 0);
        m.total_ops = 7;
        m.latency_histogram_hdr = bytes;
        m
    };
    let workers = vec![
        worker_result("a", one_op("write", report(bytes1)), true, 0, 1000),
        worker_result("b", one_op("write", report(bytes2)), true, 0, 1000),
    ];
    let merged = read_histogram(&total(&aggregate(&workers)).latency_histogram_hdr);
    assert_eq!(merged.len(), h1.len() * 2);
    assert_eq!(merged.value_at_quantile(0.5), h1.value_at_quantile(0.5));
}

#[test]
fn decode_rejects_garbage() {
    let err = match decode(&vec![1, 2, 3, 4]) {
        Ok(_) => panic!("garbage was decoded"),
        Err(e) => e,
    };
    match &err {
        HistogramError::Deserialize(_) => {}
        HistogramError::Serialize(_) => panic!("unexpected variant"),
    }
    assert!(err.message().starts_with("deserialize: "));
}

#[test]
fn the_reason_of_a_failed_decoding_is_told() {
    let reason = match decode(&vec![0, 0, 0, 0]) {
        Ok(_) => panic!("garbage was decoded"),
        Err(e) => e.message(),
    };
    assert_eq!(
        reason,
        "deserialize: The cookie (first 4 bytes) did not match that for any supported format"
    );
}

#[test]
fn counts_beyond_63_bits_have_no_encoding() {
    let mut h = Histogram::<u64>::new_with_max(60_000_000, 3).unwrap();
    h.record_n(100, i64::MAX as u64).unwrap();
    let mut bytes = Vec::new();
    V2DeflateSerializer::new().serialize(&h, &mut bytes).unwrap();
    assert_eq!(read_histogram(&encode_v2_compressed(&decode(&bytes).unwrap()).unwrap()), h);
    let report = || {
        let mut m = metrics_pb(&[], 0);
        m.total_ops = 1;
        m.latency_histogram_hdr = bytes.clone();
        m
    };
    let workers = vec![
        worker_result("a", one_op("write", report()), true, 0, 1000),
        worker_result("b", one_op("write", report()), true, 0, 1000),
    ];
    let one = aggregate(&vec![worker_result("a", one_op("write", report()), true, 0, 1000)]);
    assert_eq!(read_histogram(&total(&one).latency_histogram_hdr).len(), i64::MAX as u64);
    assert!(total(&aggregate(&workers)).latency_histogram_hdr.is_empty());
}

fn reason_of(bytes: Vec<u8>) -> Option<String> {
    match decode(&bytes) {
        Ok(_) => None,
        Err(e) => Some(e.message()),
    }
}

/// A plain encoding with the numbers `numbers`.
fn plain(numbers: &[u8]) -> Vec<u8> {
    let h = Histogram::<u64>::new_with_max(60_000_000, 3).unwrap();
    let mut bytes = Vec::new();
    V2Serializer::new().serialize(&h, &mut bytes).unwrap();
    bytes.truncate(40);
    bytes[4..8].copy_from_slice(&(numbers.len() as u32).to_be_bytes());
    bytes.extend_from_slice(numbers);
    bytes
}

/// The compressed form of a plain encoding.
fn squeezed(plain: &[u8]) -> Vec<u8> {
    let mut encoder = ZlibEncoder::new(Vec::new(), flate2::Compression::default());
    std::io::Write::write_all(&mut encoder, plain).unwrap();
    let stream = encoder.finish().unwrap();
    let mut bytes = 0x1c84_9314u32.to_be_bytes().to_vec();
    bytes.extend_from_slice(&(stream.len() as u32).to_be_bytes());
    bytes.extend_from_slice(&stream);
    bytes
}

#[test]
fn endless_runs_are_refused_in_either_form() {
    let refused =
        "deserialize: The current system's pointer width cannot represent the encoded histogram";
    let least = [0xff; 9];
    assert_eq!(reason_of(plain(&least)).as_deref(), Some(refused));
    assert_eq!(reason_of(squeezed(&plain(&least))).as_deref(), Some(refused));
    let later = [&[2u8, 4][..], &least[..], &[2][..]].concat();
    assert_eq!(reason_of(plain(&later)).as_deref(), Some(refused));
    assert_eq!(reason_of(squeezed(&plain(&later))).as_deref(), Some(refused));
}

#[test]
fn what_is_wrong_before_an_endless_run_is_told() {
    let least = [0xff; 9];
    // A count far beyond the last slot.
    let far = [&[0xff, 0xff, 0xff, 0xff, 0x0f, 2][..], &least[..]].concat();
    for bytes in [plain(&far), squeezed(&plain(&far))] {
        assert_eq!(
            reason_of(bytes).as_deref(),
            Some(
                "deserialize: The encoded array is longer than it should be for the histogram's \
                 value range"
            )
        );
    }
    // A lowest value of zero.
    let mut low = plain(&least);
    low[16..24].copy_from_slice(&[0; 8]);
    for bytes in [low.clone(), squeezed(&low)] {
        assert_eq!(
            reason_of(bytes).as_deref(),
            Some(
                "deserialize: The serialized parameters were invalid(e.g. lowest value, highest \
                 value, etc)"
            )
        );
    }
}

#[test]
fn what_looks_like_an_endless_run_is_decoded() {
    // The greatest count, then a run of 128 empty slots: nine bytes of 0xff in a
    // row that belong to two numbers.
    let numbers = [&[0xfe][..], &[0xff; 8][..], &[0xff, 0x01][..], &[2][..]].concat();
    for bytes in [plain(&numbers), squeezed(&plain(&numbers))] {
        let h = read_histogram(&encode_v2_compressed(&decode(&bytes).unwrap()).unwrap());
        assert_eq!(h.count_at(0), i64::MAX as u64);
        assert_eq!(h.count_at(129), 1);
        assert_eq!(h.max(), 129);
    }
    // A number that is cut short is an error of reading.
    assert_eq!(
        reason_of(plain(&[0xff; 8])).as_deref(),
        Some("deserialize: An i/o operation failed: failed to fill whole buffer")
    );
    // Bytes after the numbers are left alone.
    let mut trailing = plain(&[2]);
    trailing.extend_from_slice(&[0xff; 9]);
    assert!(decode(&trailing).is_ok());
}

#[test]
fn the_maximum_is_the_top_of_its_slot() {
    let m = metrics_pb(&[10, 1_000, 500_000], 1);
    let max = m.latency_us.unwrap().max;
    assert_eq!(max, Number::Ratio { num: 500_223, den: 1 });
    assert_eq!(value(max, &[]), read_histogram(&m.latency_histogram_hdr).max() as f64);
    let workers = vec![
        worker_result("a", one_op("write", metrics_pb(&[20], 1)), true, 0, 1000),
        worker_result("b", one_op("write", m), true, 0, 1000),
    ];
    assert_eq!(total(&aggregate(&workers)).latency_us.unwrap().max, max);
}

#[test]
fn histograms_at_the_end_of_numbers_are_merged_or_left_out() {
    let report = |value: u64| {
        let mut h = Histogram::<u64>::new_with_bounds(2, u64::MAX, 3).unwrap();
        h.record(value).unwrap();
        let mut m = metrics_pb(&[], 0);
        m.total_ops = 1;
        m.latency_histogram_hdr.clear();
        V2DeflateSerializer::new().serialize(&h, &mut m.latency_histogram_hdr).unwrap();
        m
    };
    let merged = |a: u64, b: u64| {
        let workers = vec![
            worker_result("a", one_op("write", report(a)), true, 0, 1000),
            worker_result("b", one_op("write", report(b)), true, 0, 1000),
        ];
        read_histogram(&total(&aggregate(&workers)).latency_histogram_hdr).len()
    };
    assert_eq!(merged(100, 200), 2);
    assert_eq!(merged(u64::MAX, 200), 2);
    assert_eq!(merged(100, u64::MAX), 1);
}

#[test]
fn each_operation_is_summed_over_workers() {
    let mut first = one_op("write", metrics_pb(&[10, 20], 100));
    first.insert("read".to_owned(), metrics_pb(&[30], 7));
    let workers = vec![
        worker_result("a", first, true, 0, 1000),
        worker_result("b", one_op("write", metrics_pb(&[40], 5)), false, 0, 1000),
    ];
    let summary = aggregate(&workers);
    let write = summary.aggregated.total_per_op.get("write").unwrap();
    assert_eq!((write.total_ops, write.total_bytes), (3, 205));
    let read = summary.aggregated.total_per_op.get("read").unwrap();
    assert_eq!((read.total_ops, read.total_bytes), (1, 7));
    assert!(summary.aggregated.total_per_op.get("delete").is_none());
}

#[test]
fn histograms_of_failed_workers_make_no_difference() {
    let with = |latencies: &[u64]| {
        let mut failed = metrics_pb(latencies, 0);
        failed.total_ops = 3;
        failed.total_bytes = 0;
        let workers = vec![
            worker_result("a", one_op("write", metrics_pb(&[10, 20], 100)), true, 0, 1000),
            worker_result("b", one_op("write", failed), false, 0, 1000),
        ];
        total(&aggregate(&workers)).latency_histogram_hdr.clone()
    };
    assert_eq!(with(&[1, 2, 3]), with(&[900_000]));
    assert_eq!(read_histogram(&with(&[1, 2, 3])).len(), 2);
}
