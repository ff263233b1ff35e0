use cvdbench::parse::RateLimit;
use cvdbench::pb;
use cvdbench::spec::redact::REDACTED;
use cvdbench::spec::validate::{validate, ValidationContext};
use cvdbench::spec::{
    BenchSpec, ConsistencyConfig, MetadataConfig, MetadataOp, SizeDistribution, WriteConfig, WriteSize,
};
use cvdbench::time::Duration;

fn good_spec() -> BenchSpec {
    BenchSpec::try_from_proto(pb::BenchSpec {
        fs_name: "examplefs".into(),
        io_mode: "seq".into(),
        io_aligned: true,
        direct_io: false,
        block_size: "1Mi".into(),
        duration: "1h".into(),
        warmup: "5m".into(),
        target_workers: 4,
        read: Some(pb::ReadConfig {
            concurrency: 4,
            file_manifest: "manifests/read.csv".into(),
            dir_manifest: String::new(),
            think_time: String::new(),
            rate_limit: "1GB/s".into(),
            s3_consistency_check: None,
            loop_files: false,
        }),
        write: None,
        metadata: None,
    })
    .unwrap()
}

#[test]
fn good_spec_passes() {
    validate(&good_spec(), &ValidationContext::default()).unwrap();
}

#[test]
fn rejects_zero_duration_and_warmup_overflow() {
    let mut s = good_spec();
    s.duration = Duration::from_millis(0);
    s.warmup = Duration::from_secs(60);
    let err = validate(&s, &ValidationContext::default()).unwrap_err();
    let fields: Vec<_> = err.violations.iter().map(|v| v.field.as_str()).collect();
    assert!(fields.contains(&"duration"));
}

#[test]
fn rejects_warmup_geq_duration() {
    let mut s = good_spec();
    s.warmup = s.duration;
    let err = validate(&s, &ValidationContext::default()).unwrap_err();
    let fields: Vec<_> = err.violations.iter().map(|v| v.field.as_str()).collect();
    assert!(fields.contains(&"warmup"));
}

#[test]
fn rejects_misaligned_block_size() {
    let mut s = good_spec();
    s.block_size = 100;
    let err = validate(&s, &ValidationContext::default()).unwrap_err();
    assert!(err
        .violations
        .iter()
        .any(|v| v.field == "block_size" && v.message.contains("aligned")));
}

#[test]
fn rejects_direct_io_without_alignment() {
    let mut s = good_spec();
    s.direct_io = true;
    s.io_aligned = false;
    let err = validate(&s, &ValidationContext::default()).unwrap_err();
    assert!(err.violations.iter().any(|v| v.field == "direct_io"));
}

#[test]
fn rejects_no_workload() {
    let mut s = good_spec();
    s.read = None;
    s.write = None;
    s.metadata = None;
    let err = validate(&s, &ValidationContext::default()).unwrap_err();
    assert!(err.violations.iter().any(|v| v.field == "spec"));
}

#[test]
fn rejects_iops_rate_for_read() {
    let mut s = good_spec();
    if let Some(read) = s.read.as_mut() {
        read.rate_limit = Some(RateLimit::Iops { ops_per_sec: 100 });
    }
    let err = validate(&s, &ValidationContext::default()).unwrap_err();
    assert!(err.violations.iter().any(|v| v.field == "read.rate_limit"));
}

#[test]
fn rejects_throughput_rate_for_metadata() {
    let mut s = good_spec();
    s.metadata = Some(MetadataConfig {
        concurrency: 1,
        dir: "bench/meta".into(),
        dir_manifest: None,
        ops: vec![MetadataOp::Stat],
        read_only: false,
        read_only_scan_limit: 0,
        depth: 1,
        width: 1,
        files_per_dir: 1,
        layout_concurrency: 1,
        think_time: None,
        rate_limit: Some(RateLimit::Throughput {
            bytes_per_sec: 1_000_000,
        }),
    });
    let err = validate(&s, &ValidationContext::default()).unwrap_err();
    assert!(err
        .violations
        .iter()
        .any(|v| v.field == "metadata.rate_limit"));
}

#[test]
fn rejects_layout_softcap_overflow() {
    let mut s = good_spec();
    s.metadata = Some(MetadataConfig {
        concurrency: 1,
        dir: "bench/meta".into(),
        dir_manifest: None,
        ops: vec![MetadataOp::Stat],
        read_only: false,
        read_only_scan_limit: 0,
        depth: 8,
        width: 1000,
        files_per_dir: 1,
        layout_concurrency: 1,
        think_time: None,
        rate_limit: None,
    });
    let err = validate(&s, &ValidationContext::default()).unwrap_err();
    assert!(err.violations.iter().any(|v| v.field == "metadata.layout"));
}

#[test]
fn rejects_unsafe_paths() {
    let mut s = good_spec();
    s.write = Some(WriteConfig {
        concurrency: 1,
        dir: "/abs".into(),
        size: WriteSize::Fixed { bytes: 4096 },
        fsync: false,
        cleanup: false,
        think_time: None,
        rate_limit: None,
        verify_after_write: false,
    });
    let err = validate(&s, &ValidationContext::default()).unwrap_err();
    assert!(err.violations.iter().any(|v| v.field == "write.dir"));
}

#[test]
fn rejects_size_range_min_gt_max() {
    let mut s = good_spec();
    s.write = Some(WriteConfig {
        concurrency: 1,
        dir: "bench/write".into(),
        size: WriteSize::Range {
            min: 1_000_000,
            max: 1_000,
            distribution: SizeDistribution::Uniform,
        },
        fsync: false,
        cleanup: false,
        think_time: None,
        rate_limit: None,
        verify_after_write: false,
    });
    let err = validate(&s, &ValidationContext::default()).unwrap_err();
    assert!(err
        .violations
        .iter()
        .any(|v| v.field == "write.file_size_range"));
}

#[test]
fn rejects_consistency_with_empty_credentials() {
    let mut s = good_spec();
    if let Some(read) = s.read.as_mut() {
        read.s3_consistency_check = Some(ConsistencyConfig {
            bucket_name: "b".into(),
            bucket_url: String::new(),
            access_key: String::new(),
            secret_key: String::new(),
            region: "us-east-1".into(),
            prefix: String::new(),
            session_token: String::new(),
        });
    }
    let err = validate(&s, &ValidationContext::default()).unwrap_err();
    let fields: Vec<_> = err.violations.iter().map(|v| v.field.as_str()).collect();
    assert!(fields.contains(&"read.s3_consistency_check.bucket_url"));
    assert!(fields.contains(&"read.s3_consistency_check.access_key"));
    assert!(fields.contains(&"read.s3_consistency_check.secret_key"));
}

#[test]
fn allows_redacted_consistency_credentials_for_worker_validation() {
    let mut s = good_spec();
    if let Some(read) = s.read.as_mut() {
        read.s3_consistency_check = Some(ConsistencyConfig {
            bucket_name: "b".into(),
            bucket_url: "http://127.0.0.1:9000".into(),
            access_key: REDACTED.into(),
            secret_key: REDACTED.into(),
            region: "us-east-1".into(),
            prefix: String::new(),
            session_token: String::new(),
        });
    }

    validate(
        &s,
        &ValidationContext {
            allow_redacted_consistency_credentials: true,
            ..ValidationContext::default()
        },
    )
    .unwrap();

    let err = validate(&s, &ValidationContext::default()).unwrap_err();
    assert!(err
        .violations
        .iter()
        .any(|v| v.field == "read.s3_consistency_check.access_key"));
}

#[test]
fn rejects_metadata_stat_or_open_with_zero_files_per_dir() {
    let mut s = good_spec();
    s.read = None;
    s.metadata = Some(MetadataConfig {
        concurrency: 1,
        dir: "bench/meta".into(),
        dir_manifest: None,
        ops: vec![MetadataOp::Stat, MetadataOp::Mkdir],
        read_only: false,
        read_only_scan_limit: 0,
        depth: 1,
        width: 1,
        files_per_dir: 0,
        layout_concurrency: 1,
        think_time: None,
        rate_limit: None,
    });
    let err = validate(&s, &ValidationContext::default()).unwrap_err();
    assert!(err
        .violations
        .iter()
        .any(|v| v.field == "metadata.files_per_dir"));
}

#[test]
fn read_only_metadata_allows_existing_layout_without_prebuild_shape() {
    let mut s = good_spec();
    s.read = None;
    s.metadata = Some(MetadataConfig {
        concurrency: 1,
        dir: "existing/meta".into(),
        dir_manifest: None,
        ops: vec![MetadataOp::Stat, MetadataOp::Open, MetadataOp::Readdir],
        read_only: true,
        read_only_scan_limit: 0,
        depth: 0,
        width: 0,
        files_per_dir: 0,
        layout_concurrency: 1,
        think_time: None,
        rate_limit: None,
    });
    validate(&s, &ValidationContext::default()).unwrap();
}

#[test]
fn read_only_metadata_rejects_mutating_ops() {
    let mut s = good_spec();
    s.read = None;
    s.metadata = Some(MetadataConfig {
        concurrency: 1,
        dir: "existing/meta".into(),
        dir_manifest: None,
        ops: vec![MetadataOp::Stat, MetadataOp::Create],
        read_only: true,
        read_only_scan_limit: 0,
        depth: 0,
        width: 0,
        files_per_dir: 0,
        layout_concurrency: 1,
        think_time: None,
        rate_limit: None,
    });
    let err = validate(&s, &ValidationContext::default()).unwrap_err();
    assert!(err.violations.iter().any(|v| v.field == "metadata.ops"));
}
