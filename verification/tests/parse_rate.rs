use cvdbench::parse::{parse_rate_limit, ParseError, RateLimit};

fn ok_throughput(input: &str, expect: u64) {
    assert_eq!(
        parse_rate_limit(input).unwrap(),
        Some(RateLimit::Throughput {
            bytes_per_sec: expect
        }),
        "parse_rate_limit({input:?})"
    );
}

fn ok_iops(input: &str, expect: u64) {
    assert_eq!(
        parse_rate_limit(input).unwrap(),
        Some(RateLimit::Iops {
            ops_per_sec: expect
        }),
        "parse_rate_limit({input:?})"
    );
}

fn err(input: &str) {
    let r = parse_rate_limit(input);
    assert!(r.is_err(), "expected err, got {r:?} for input {input:?}");
}

#[test]
fn rate_empty_is_unset() {
    assert_eq!(parse_rate_limit("").unwrap(), None);
    assert_eq!(parse_rate_limit("   ").unwrap(), None);
}

#[test]
fn throughput_si_and_iec() {
    ok_throughput("1GB/s", 1_000_000_000);
    ok_throughput("500MiB/s", 500 * (1u64 << 20));
    ok_throughput("1024B/s", 1024);
    ok_throughput("1024/s", 1024);
}

#[test]
fn iops_form() {
    ok_iops("5000iops", 5000);
    ok_iops("1iops", 1);
}

#[test]
fn rejects_mixed_or_unknown_suffix() {
    err("5000IOPS");
    err("1KB/min");
    err("1KB");
    err("/s");
    err("iops");
    err("1.5KB/s");
    err("-1iops");
}

#[test]
fn errors_hold_the_whole_input() {
    assert_eq!(
        parse_rate_limit("1.5KB/s"),
        Err(ParseError::InvalidUnit {
            field: "rate_limit",
            unit: ".5KB".into(),
            input: "1.5KB/s".into(),
        })
    );
    assert_eq!(
        parse_rate_limit(" KB/s"),
        Err(ParseError::MissingNumber { field: "rate_limit", input: " KB/s".into() })
    );
    assert_eq!(
        parse_rate_limit("99999999999999999999/s"),
        Err(ParseError::InvalidNumber {
            field: "rate_limit",
            number: "99999999999999999999".into(),
            input: "99999999999999999999/s".into(),
        })
    );
    assert_eq!(
        parse_rate_limit("18446744073709551615K/s"),
        Err(ParseError::Overflow {
            field: "rate_limit",
            input: "18446744073709551615K/s".into(),
        })
    );
    assert_eq!(
        parse_rate_limit("1KB/min"),
        Err(ParseError::InvalidShape { field: "rate_limit", input: "1KB/min".into() })
    );
}
