use cvdbench::parse::parse_duration;
use cvdbench::time::Duration;

fn ok(input: &str, expect_ms: u64) {
    assert_eq!(
        parse_duration(input).unwrap(),
        Some(Duration::from_millis(expect_ms)),
        "parse_duration({input:?})"
    );
}

fn err(input: &str) {
    let r = parse_duration(input);
    assert!(r.is_err(), "expected err, got {r:?} for input {input:?}");
}

#[test]
fn duration_empty_is_unset() {
    assert_eq!(parse_duration("").unwrap(), None);
    assert_eq!(parse_duration("   ").unwrap(), None);
}

#[test]
fn single_units() {
    ok("500ms", 500);
    ok("0s", 0);
    ok("30s", 30_000);
    ok("30m", 30 * 60_000);
    ok("2h", 2 * 3_600_000);
}

#[test]
fn concatenated() {
    ok("1h30m", 5_400_000);
    ok("1h30m45s", 5_445_000);
    ok("1h500ms", 3_600_500);
    ok("0h0m0s0ms", 0);
}

#[test]
fn ms_priority_over_m() {
    ok("500ms", 500);
}

#[test]
fn sums_repeated_units() {
    ok("1h2h", 3 * 3_600_000);
}

#[test]
fn rejects_missing_unit() {
    err("1");
    err("1h30");
}

#[test]
fn duration_rejects_unknown_unit() {
    err("1d");
    err("1H");
    err("1S");
}

#[test]
fn rejects_missing_number() {
    err("h");
    err("1hms");
}

#[test]
fn rejects_negative_or_garbage() {
    err("-1s");
    err("abc");
    err("1h-30m");
}

#[test]
fn duration_detects_overflow() {
    let too_many_hours = (u64::MAX / 3_600_000) + 1;
    err(&format!("{too_many_hours}h"));
}
