use cvdbench::parse::RateLimit;
use cvdbench::pb;
use cvdbench::spec::{BenchSpec, IoMode, MetadataOp, ReadSource, SpecConvertError};
use cvdbench::time::Duration;

fn minimal_proto_spec() -> pb::BenchSpec {
    pb::BenchSpec {
        fs_name: "examplefs".into(),
        io_mode: "seq".into(),
        io_aligned: true,
        direct_io: false,
        block_size: "1M".into(),
        duration: "1h".into(),
        warmup: "5m".into(),
        read: None,
        write: None,
        metadata: None,
        target_workers: 4,
    }
}

#[test]
fn parses_basic_spec() {
    let mut p = minimal_proto_spec();
    p.read = Some(pb::ReadConfig {
        concurrency: 16,
        file_manifest: "manifests/read.csv".into(),
        dir_manifest: String::new(),
        think_time: "10ms".into(),
        rate_limit: "1GB/s".into(),
        s3_consistency_check: None,
        loop_files: false,
    });
    let s = BenchSpec::try_from_proto(p).unwrap();
    assert_eq!(s.fs_name, "examplefs");
    assert_eq!(s.io_mode, IoMode::Sequential);
    assert_eq!(s.block_size, 1_000_000);
    assert_eq!(s.duration, Duration::from_secs(3600));
    assert_eq!(s.warmup, Duration::from_secs(300));
    assert_eq!(s.target_workers, 4);
    let r = s.read.unwrap();
    assert_eq!(r.concurrency, 16);
    assert_eq!(
        r.source,
        ReadSource::FileManifest {
            path: "manifests/read.csv".into()
        }
    );
    assert_eq!(r.think_time, Some(Duration::from_millis(10)));
    assert_eq!(
        r.rate_limit,
        Some(RateLimit::Throughput {
            bytes_per_sec: 1_000_000_000
        })
    );
    assert!(!r.loop_files);
}

#[test]
fn normalizes_target_workers() {
    let mut p = minimal_proto_spec();
    p.target_workers = 0;
    let s = BenchSpec::try_from_proto(p).unwrap();
    assert_eq!(s.target_workers, 1);

    let mut p = minimal_proto_spec();
    p.target_workers = -3;
    let s = BenchSpec::try_from_proto(p).unwrap();
    assert_eq!(s.target_workers, 1);
}

#[test]
fn warmup_defaults_to_zero() {
    let mut p = minimal_proto_spec();
    p.warmup = String::new();
    let s = BenchSpec::try_from_proto(p).unwrap();
    assert_eq!(s.warmup, Duration::from_millis(0));
}

#[test]
fn rejects_unknown_io_mode() {
    let mut p = minimal_proto_spec();
    p.io_mode = "stride".into();
    let err = BenchSpec::try_from_proto(p).unwrap_err();
    assert!(matches!(err, SpecConvertError::Bad { field, .. } if field == "io_mode"));
}

#[test]
fn rejects_missing_block_size() {
    let mut p = minimal_proto_spec();
    p.block_size = String::new();
    let err = BenchSpec::try_from_proto(p).unwrap_err();
    assert!(matches!(err, SpecConvertError::Bad { field, .. } if field == "block_size"));
}

#[test]
fn read_requires_one_manifest_kind() {
    let mut p = minimal_proto_spec();
    p.read = Some(pb::ReadConfig {
        concurrency: 1,
        file_manifest: String::new(),
        dir_manifest: String::new(),
        think_time: String::new(),
        rate_limit: String::new(),
        s3_consistency_check: None,
        loop_files: false,
    });
    let err = BenchSpec::try_from_proto(p).unwrap_err();
    assert!(matches!(err, SpecConvertError::Bad { field, .. } if field == "read"));
}

#[test]
fn read_rejects_both_manifest_kinds() {
    let mut p = minimal_proto_spec();
    p.read = Some(pb::ReadConfig {
        concurrency: 1,
        file_manifest: "f.csv".into(),
        dir_manifest: "dirs.txt".into(),
        think_time: String::new(),
        rate_limit: String::new(),
        s3_consistency_check: None,
        loop_files: false,
    });
    let err = BenchSpec::try_from_proto(p).unwrap_err();
    assert!(matches!(err, SpecConvertError::Bad { field, .. } if field == "read"));
}

#[test]
fn write_size_is_either_fixed_or_range() {
    let mut p = minimal_proto_spec();
    p.write = Some(pb::WriteConfig {
        concurrency: 1,
        dir: "bench/write".into(),
        file_size: String::new(),
        file_size_range: None,
        fsync: false,
        cleanup: true,
        think_time: String::new(),
        rate_limit: String::new(),
        verify_after_write: false,
    });
    let err = BenchSpec::try_from_proto(p).unwrap_err();
    assert!(matches!(err, SpecConvertError::Bad { field, .. } if field == "write"));

    let mut p = minimal_proto_spec();
    p.write = Some(pb::WriteConfig {
        concurrency: 1,
        dir: "bench/write".into(),
        file_size: "1G".into(),
        file_size_range: Some(pb::FileSizeRange {
            min: "1K".into(),
            max: "1M".into(),
            distribution: String::new(),
        }),
        fsync: false,
        cleanup: true,
        think_time: String::new(),
        rate_limit: String::new(),
        verify_after_write: false,
    });
    let err = BenchSpec::try_from_proto(p).unwrap_err();
    assert!(matches!(err, SpecConvertError::Bad { field, .. } if field == "write"));
}

#[test]
fn metadata_layout_concurrency_falls_back() {
    let mut p = minimal_proto_spec();
    p.metadata = Some(pb::MetadataConfig {
        concurrency: 32,
        dir: "bench/meta".into(),
        ops: vec!["create".into(), "stat".into()],
        depth: 3,
        width: 4,
        files_per_dir: 100,
        think_time: "1ms".into(),
        rate_limit: "5000iops".into(),
        layout_concurrency: 0,
        read_only: false,
        read_only_scan_limit: 0,
        dir_manifest: String::new(),
    });
    let s = BenchSpec::try_from_proto(p).unwrap();
    let m = s.metadata.unwrap();
    assert_eq!(m.layout_concurrency, 32);
    assert_eq!(m.rate_limit, Some(RateLimit::Iops { ops_per_sec: 5000 }));
    assert_eq!(m.ops, vec![MetadataOp::Create, MetadataOp::Stat]);
}

#[test]
fn metadata_rejects_unknown_op() {
    let mut p = minimal_proto_spec();
    p.metadata = Some(pb::MetadataConfig {
        concurrency: 1,
        dir: "bench/meta".into(),
        ops: vec!["chmod".into()],
        depth: 1,
        width: 1,
        files_per_dir: 1,
        think_time: String::new(),
        rate_limit: String::new(),
        layout_concurrency: 0,
        read_only: false,
        read_only_scan_limit: 0,
        dir_manifest: String::new(),
    });
    let err = BenchSpec::try_from_proto(p).unwrap_err();
    assert!(matches!(err, SpecConvertError::Bad { field, .. } if field == "metadata.ops"));
}
