use cvdbench::id::{generate, sanitize_hostname, validate, WorkerIdError, MAX_LEN};

#[test]
fn generate_matches_grammar_and_validates() {
    let id = generate("node12", 3941);
    validate(&id).unwrap_or_else(|e| panic!("generated id {id:?} failed validate: {}", e.message()));
    assert!(id.matches('-').count() >= 2, "missing dashes in {id}");
}

#[test]
fn validate_accepts_canonical_examples() {
    validate("node12-3941-7af2c910").unwrap();
    validate("host.with.dots-1-abc12345").unwrap();
    validate("Host_Name-1-abc12345").unwrap();
}

#[test]
fn validate_rejects_empty() {
    assert_eq!(validate(""), Err(WorkerIdError::Empty));
}

#[test]
fn validate_rejects_forbidden_chars() {
    assert!(matches!(
        validate("node 12-3941-7af2c910"),
        Err(WorkerIdError::BadChar { ch: ' ' })
    ));
    assert!(matches!(
        validate("node/12-3941-7af2c910"),
        Err(WorkerIdError::BadChar { ch: '/' })
    ));
    assert!(matches!(
        validate("nodeα-3941-7af2c910"),
        Err(WorkerIdError::BadChar { .. })
    ));
}

#[test]
fn validate_rejects_too_long() {
    let id = "a".repeat(MAX_LEN + 1);
    assert_eq!(validate(&id), Err(WorkerIdError::TooLong(MAX_LEN + 1)));
}

#[test]
fn sanitize_hostname_replaces_disallowed() {
    assert_eq!(sanitize_hostname("foo.bar"), "foo.bar");
    assert_eq!(sanitize_hostname("foo bar"), "foo_bar");
    assert_eq!(sanitize_hostname("foo/bar:baz"), "foo_bar_baz");
    assert_eq!(sanitize_hostname(""), "unknown");
}
