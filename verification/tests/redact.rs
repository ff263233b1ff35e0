use cvdbench::pb;
use cvdbench::spec::redact::{extract_credentials, redact_in_place, redacted, REDACTED};

fn spec_with_credentials() -> pb::BenchSpec {
    pb::BenchSpec {
        fs_name: "examplefs".into(),
        io_mode: "seq".into(),
        io_aligned: true,
        direct_io: false,
        block_size: "1M".into(),
        duration: "1h".into(),
        warmup: "5m".into(),
        target_workers: 4,
        read: Some(pb::ReadConfig {
            concurrency: 4,
            file_manifest: "m.csv".into(),
            dir_manifest: String::new(),
            think_time: String::new(),
            rate_limit: String::new(),
            s3_consistency_check: Some(pb::ConsistencyConfig {
                bucket_name: "example-bucket".into(),
                bucket_url: "http://s3.example.com".into(),
                access_key: "AK".into(),
                secret_key: "SK".into(),
                region: "us-east-1".into(),
                prefix: "bench/".into(),
                session_token: "TOKEN".into(),
            }),
            loop_files: false,
        }),
        write: None,
        metadata: None,
    }
}

#[test]
fn extracts_credentials_before_redact() {
    let spec = spec_with_credentials();
    let creds = extract_credentials(&spec).unwrap();
    assert_eq!(creds.access_key, "AK");
    assert_eq!(creds.secret_key, "SK");
    assert_eq!(creds.session_token, "TOKEN");
}

#[test]
fn extract_returns_none_when_no_consistency() {
    let mut spec = spec_with_credentials();
    spec.read.as_mut().unwrap().s3_consistency_check = None;
    assert!(extract_credentials(&spec).is_none());
}

#[test]
fn redact_in_place_replaces_secrets_only() {
    let mut spec = spec_with_credentials();
    redact_in_place(&mut spec);
    let s3 = spec
        .read
        .as_ref()
        .unwrap()
        .s3_consistency_check
        .as_ref()
        .unwrap();
    assert_eq!(s3.access_key, REDACTED);
    assert_eq!(s3.secret_key, REDACTED);
    assert_eq!(s3.session_token, REDACTED);
    assert_eq!(s3.bucket_name, "example-bucket");
    assert_eq!(s3.bucket_url, "http://s3.example.com");
    assert_eq!(s3.region, "us-east-1");
    assert_eq!(s3.prefix, "bench/");
}

#[test]
fn redact_is_safe_when_no_consistency() {
    let mut spec = spec_with_credentials();
    spec.read.as_mut().unwrap().s3_consistency_check = None;
    redact_in_place(&mut spec);
    assert!(spec.read.as_ref().unwrap().s3_consistency_check.is_none());
}

#[test]
fn redacted_returns_independent_copy() {
    let original = spec_with_credentials();
    let copy = redacted(original.clone());
    assert_eq!(
        original
            .read
            .as_ref()
            .unwrap()
            .s3_consistency_check
            .as_ref()
            .unwrap()
            .access_key,
        "AK",
        "the given specification stays as it is"
    );
    assert_eq!(
        copy.read
            .as_ref()
            .unwrap()
            .s3_consistency_check
            .as_ref()
            .unwrap()
            .access_key,
        REDACTED
    );
}
