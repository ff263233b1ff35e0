use cvdbench::error::{CvbError, ValidateError};
use cvdbench::id::{
    generate, generate_with, hostname_or_default, validate, WorkerIdError, MAX_LEN,
};
use cvdbench::parse::size::parse_size_field;
use cvdbench::parse::{parse_duration, parse_rate_limit, parse_size, ParseError, RateLimit};
use cvdbench::path_safe::{
    canonicalize_within_mount, join_under_mount, lies_within, normalize_relative,
    validate_relative, CanonicalizeError, PathSafeError,
};
use cvdbench::pb;
use cvdbench::spec::redact::redacted;
use cvdbench::spec::validate::{total_dirs, ValidationReport, Violation};
use cvdbench::spec::{BenchSpec, SpecConvertError};
use cvdbench::time::Duration;

#[test]
fn parse_errors_are_worded() {
    assert_eq!(
        parse_size("K").unwrap_err().message(),
        "size is missing a numeric prefix in \"K\""
    );
    assert_eq!(
        parse_size("1x").unwrap_err().message(),
        "size unit \"x\" is not recognised in \"1x\""
    );
    assert_eq!(
        parse_size("99999999999T").unwrap_err().message(),
        "size value \"99999999999T\" overflows u64"
    );
    assert_eq!(
        parse_size_field("1x", "block_size").unwrap_err().message(),
        "block_size unit \"x\" is not recognised in \"1x\""
    );
    assert_eq!(
        ParseError::InvalidNumber { field: "size", number: "-1".into(), input: "-1K".into() }
            .message(),
        "size number \"-1\" is not a non-negative integer in \"-1K\""
    );
    assert_eq!(
        ParseError::InvalidShape { field: "rate_limit", input: "1 2".into() }.message(),
        "rate_limit value \"1 2\" does not match expected grammar"
    );
}

#[test]
fn numbers_that_are_too_long_do_not_wrap() {
    assert!(parse_size("18446744073709551615").is_ok());
    assert!(parse_size("18446744073709551616").is_err());
    assert!(parse_duration("18446744073709551616s").is_err());
    assert!(parse_rate_limit("99999999999TB/s").is_err());
}

#[test]
fn blanks_say_nothing() {
    for blank in ["", " ", "\t\n", "\u{3000}"] {
        assert_eq!(parse_size(blank), Ok(None));
        assert_eq!(parse_duration(blank), Ok(None));
        assert_eq!(parse_rate_limit(blank), Ok(None));
    }
}

#[test]
fn a_trailing_b_is_optional() {
    for unit in ["K", "M", "G", "T", "Ki", "Mi", "Gi", "Ti"] {
        assert_eq!(parse_size(&format!("7{unit}")), parse_size(&format!("7{unit}B")));
    }
    assert_eq!(parse_size("12"), Ok(Some(12)));
}

#[test]
fn durations_add_up() {
    let ms = |s: &str| parse_duration(s).unwrap().unwrap().as_millis();
    assert_eq!(ms("1h30m"), ms("1h") + ms("30m"));
    assert_eq!(ms("1m1s1ms"), ms("1m1s") + ms("1ms"));
    assert_eq!(parse_duration("200ms"), Ok(Some(Duration::from_millis(200))));
}

#[test]
fn rates_are_of_bytes_or_of_operations() {
    assert_eq!(
        parse_rate_limit("1GB/s"),
        Ok(Some(RateLimit::Throughput { bytes_per_sec: 1_000_000_000 }))
    );
    assert!(matches!(parse_rate_limit("100iops"), Ok(Some(RateLimit::Iops { ops_per_sec: 100 }))));
}

#[test]
fn path_errors_are_worded() {
    assert_eq!(PathSafeError::Empty.message(), "path is empty");
    assert_eq!(
        validate_relative("a\0b").unwrap_err().message(),
        "path \"a\\0b\" contains NUL byte"
    );
    assert_eq!(
        validate_relative("/a").unwrap_err().message(),
        "path \"/a\" must be relative (no leading '/')"
    );
    assert_eq!(
        validate_relative("a/../b").unwrap_err().message(),
        "path \"a/../b\" contains forbidden component \"..\""
    );
}

#[test]
fn resolved_paths_have_to_lie_below_the_mount_point() {
    let ok = |canon: &str| canonicalize_within_mount("/mnt/x", "a/b", Ok(canon.into()));
    assert_eq!(ok("/mnt/x/c").unwrap(), "/mnt/x/c");
    assert_eq!(
        ok("/mnt/xy/c").unwrap_err().message(),
        "path \"/mnt/xy/c\" escapes mount_point \"/mnt/x\""
    );
    assert_eq!(
        canonicalize_within_mount("/mnt/x", "a/b", Err("gone".into())).unwrap_err().message(),
        "canonicalize \"/mnt/x/a/b\" failed: gone"
    );
    let err = canonicalize_within_mount("/mnt/x", "../b", Ok("/mnt/x/b".into())).unwrap_err();
    assert!(matches!(&err, CanonicalizeError::PathSafe(PathSafeError::ForbiddenComponent { .. })));
    assert_eq!(err.message(), "path \"../b\" contains forbidden component \"..\"");
    assert!(lies_within("/mnt/x", "/mnt/x"));
    assert!(!lies_within("/mnt", "/mnt/x"));
    assert!(lies_within("/mnt/x/a", "/mnt/./x"));
    assert!(lies_within("/mnt/x/a", "/./mnt/x/."));
    assert!(lies_within("/mnt/x/a", ""));
    assert!(!lies_within("mnt/x", "./mnt"));
    assert!(lies_within("./mnt/x", "./mnt/."));
    assert!(!lies_within("/mnt/x", "mnt"));
}

#[test]
fn accepted_paths_stay_below_where_they_are_joined() {
    for path in ["a", "a/b", "a//b", "..a/b..", "x/"] {
        validate_relative(path).unwrap();
        let joined = join_under_mount("/mnt/x", path).unwrap();
        assert!(lies_within(&joined, "/mnt/x"), "{joined}");
    }
}

#[test]
fn normal_forms_are_normal() {
    for path in ["a/b", "a//b/", "a b/c"] {
        let once = normalize_relative(path).unwrap();
        assert_eq!(normalize_relative(&once).unwrap(), once);
        assert!(once.split('/').all(|c| !c.is_empty()));
    }
}

#[test]
fn worker_id_errors_are_worded() {
    assert_eq!(validate("").unwrap_err().message(), "worker_id is empty");
    let long = "a".repeat(MAX_LEN + 1);
    assert_eq!(validate(&long), Err(WorkerIdError::TooLong(129)));
    assert_eq!(validate(&long).unwrap_err().message(), "worker_id length 129 exceeds 128");
    assert_eq!(
        validate("a'b").unwrap_err().message(),
        "worker_id contains forbidden character '\\''"
    );
}

#[test]
fn generated_ids_are_valid_and_differ() {
    let a = generate("host one", 7);
    let b = generate("host one", 7);
    assert!(a.starts_with("host_one-7-"));
    assert_eq!(a.len(), "host_one-7-".len() + 8);
    validate(&a).unwrap();
    assert_ne!(a, b);
    assert_eq!(generate_with("h", 42, "0123456789abcdef"), "h-42-01234567");
    assert_eq!(hostname_or_default(Some("node1\n\n")), "node1");
    assert_eq!(hostname_or_default(Some("\n")), "unknown");
    assert_eq!(hostname_or_default(None), "unknown");
}

#[test]
fn other_errors_are_worded() {
    assert_eq!(CvbError::Validate("x".into()).message(), "validation failed: x");
    assert_eq!(CvbError::Parse("x".into()).message(), "parse error: x");
    assert_eq!(CvbError::Io("x".into()).message(), "io error: x");
    assert_eq!(ValidateError::new("x").message, "x");
    assert_eq!(SpecConvertError::Bad { field: "io_mode", message: "x".into() }.message(), "io_mode: x");
}

#[test]
fn conversion_errors_name_their_field() {
    let spec = pb::BenchSpec { block_size: "1x".into(), ..pb::BenchSpec::default() };
    let err = BenchSpec::try_from_proto(spec).unwrap_err();
    assert!(err.message().contains(": "), "{}", err.message());
}

#[test]
fn violations_are_listed_one_to_a_line() {
    let report = ValidationReport {
        violations: vec![
            Violation { field: "a".into(), message: "x".into() },
            Violation { field: "b".into(), message: "y".into() },
        ],
    };
    assert_eq!(report.message(), "a: x\nb: y");
    assert!(!report.is_empty());
    assert!(ValidationReport { violations: vec![] }.is_empty());
}

#[test]
fn trees_are_counted_by_level() {
    assert_eq!(total_dirs(0, 5), 0);
    assert_eq!(total_dirs(2, 3), 3 + 9);
    assert_eq!(total_dirs(100, 10), u64::MAX);
}

#[test]
fn redacting_twice_changes_nothing() {
    let secret = |key: &str| pb::BenchSpec {
        read: Some(pb::ReadConfig {
            s3_consistency_check: Some(pb::ConsistencyConfig {
                access_key: key.into(),
                secret_key: key.into(),
                session_token: key.into(),
                ..pb::ConsistencyConfig::default()
            }),
            ..pb::ReadConfig::default()
        }),
        ..pb::BenchSpec::default()
    };
    let once = redacted(secret("one"));
    assert_eq!(redacted(once.clone()), once);
    assert_eq!(redacted(secret("two")), once);
}

#[test]
fn at_least_one_worker_is_asked_for() {
    let spec = |n: i32| pb::BenchSpec {
        fs_name: "x".into(),
        io_mode: "seq".into(),
        block_size: "1Mi".into(),
        duration: "1h".into(),
        target_workers: n,
        write: Some(pb::WriteConfig {
            concurrency: 1,
            dir: "d".into(),
            file_size: "4Ki".into(),
            ..pb::WriteConfig::default()
        }),
        ..pb::BenchSpec::default()
    };
    for n in [i32::MIN, -1, 0, 1] {
        assert_eq!(BenchSpec::try_from_proto(spec(n)).unwrap().target_workers, 1);
    }
    assert_eq!(BenchSpec::try_from_proto(spec(9)).unwrap().target_workers, 9);
}
