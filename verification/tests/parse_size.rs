use cvdbench::parse::parse_size;

fn ok(input: &str, expect: u64) {
    assert_eq!(
        parse_size(input).unwrap(),
        Some(expect),
        "parse_size({input:?})"
    );
}

fn err(input: &str) {
    let r = parse_size(input);
    assert!(r.is_err(), "expected err, got {r:?} for input {input:?}");
}

#[test]
fn size_empty_is_unset() {
    assert_eq!(parse_size("").unwrap(), None);
    assert_eq!(parse_size("   ").unwrap(), None);
}

#[test]
fn no_unit_is_bytes() {
    ok("0", 0);
    ok("1024", 1024);
}

#[test]
fn decimal_si_units() {
    ok("4K", 4_000);
    ok("4KB", 4_000);
    ok("1M", 1_000_000);
    ok("1MB", 1_000_000);
    ok("1G", 1_000_000_000);
    ok("1GB", 1_000_000_000);
    ok("2T", 2_000_000_000_000);
    ok("2TB", 2_000_000_000_000);
}

#[test]
fn binary_iec_units() {
    ok("1Ki", 1024);
    ok("1KiB", 1024);
    ok("4Ki", 4 * 1024);
    ok("1Mi", 1 << 20);
    ok("1MiB", 1 << 20);
    ok("1Gi", 1 << 30);
    ok("1GiB", 1 << 30);
    ok("1Ti", 1u64 << 40);
    ok("1TiB", 1u64 << 40);
}

#[test]
fn bare_b() {
    ok("1B", 1);
    ok("4096B", 4096);
}

#[test]
fn size_rejects_unknown_unit() {
    err("1k");
    err("1KIB");
    err("1Kib");
    err("1XB");
    err("KB");
}

#[test]
fn rejects_garbage() {
    err("abc");
    err("-1");
    err("1.5K");
    err("1K2");
}

#[test]
fn size_detects_overflow() {
    let too_many_ti = (u64::MAX / (1u64 << 40)) + 1;
    err(&format!("{too_many_ti}Ti"));
}
