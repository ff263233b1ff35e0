//! Credentials in specifications: taken out, and replaced by a placeholder.
//!
//! Only the access key, the secret key and the session token are secret; the
//! bucket, its address, region and prefix are not touched.

use vstd::prelude::*;

use crate::pb;
use crate::views::opt_view;

verus! {

/// What stands in place of a secret.
pub const REDACTED: &'static str = "***";

/// The consistency check of a specification, where it has one.
pub open spec fn check_of(spec: pb::BenchSpec) -> Option<pb::ConsistencyConfig> {
    match spec.read {
        Some(read) => read.s3_consistency_check,
        None => None,
    }
}

/// The credentials in a specification, where it has a consistency check.
#[must_use]
pub fn extract_credentials(spec: &pb::BenchSpec) -> (r: Option<pb::S3CredentialMaterial>)
    ensures
        match check_of(*spec) {
            Some(s3) => r == Some(
                pb::S3CredentialMaterial {
                    access_key: s3.access_key,
                    secret_key: s3.secret_key,
                    session_token: s3.session_token,
                },
            ),
            None => r is None,
        },
        opt_view(r) == secrets_of(spec@),
{
    match &spec.read {
        None => None,
        Some(read) => match &read.s3_consistency_check {
            None => None,
            Some(s3) => Some(
                pb::S3CredentialMaterial {
                    access_key: s3.access_key.clone(),
                    secret_key: s3.secret_key.clone(),
                    session_token: s3.session_token.clone(),
                },
            ),
        },
    }
}

/// Whether `b` is `a` with its secrets replaced, and nothing else changed.
pub open spec fn is_redaction(a: pb::BenchSpec, b: pb::BenchSpec) -> bool {
    match check_of(a) {
        None => b == a,
        Some(x) => {
            &&& check_of(b) is Some
            &&& ({
                let y = check_of(b)->Some_0;
                &&& b == (pb::BenchSpec {
                    read: Some(
                        pb::ReadConfig { s3_consistency_check: Some(y), ..a.read->Some_0 },
                    ),
                    ..a
                })
                &&& y == (pb::ConsistencyConfig {
                    access_key: y.access_key,
                    secret_key: y.secret_key,
                    session_token: y.session_token,
                    ..x
                })
                &&& y.access_key@ == REDACTED@
                &&& y.secret_key@ == REDACTED@
                &&& y.session_token@ == REDACTED@
            })
        },
    }
}

/// Whether a specification holds no secret.
pub open spec fn holds_no_secret(spec: pb::BenchSpec) -> bool {
    check_of(spec) matches Some(y) ==> y.access_key@ == REDACTED@ && y.secret_key@ == REDACTED@
        && y.session_token@ == REDACTED@
}

/// The view of a specification with its secrets replaced.
pub open spec fn redacted_view(p: pb::BenchSpecView) -> pb::BenchSpecView {
    match p.read {
        Some(read) => match read.s3_consistency_check {
            Some(s3) => pb::BenchSpecView {
                read: Some(
                    pb::ReadConfigView {
                        s3_consistency_check: Some(
                            pb::ConsistencyConfigView {
                                access_key: REDACTED@,
                                secret_key: REDACTED@,
                                session_token: REDACTED@,
                                ..s3
                            },
                        ),
                        ..read
                    },
                ),
                ..p
            },
            None => p,
        },
        None => p,
    }
}

/// The secrets in the view of a specification.
pub open spec fn secrets_of(p: pb::BenchSpecView) -> Option<pb::S3CredentialMaterialView> {
    match p.read {
        Some(read) => match read.s3_consistency_check {
            Some(s3) => Some(
                pb::S3CredentialMaterialView {
                    access_key: s3.access_key,
                    secret_key: s3.secret_key,
                    session_token: s3.session_token,
                },
            ),
            None => None,
        },
        None => None,
    }
}

/// Replaces the secrets in a specification.
pub fn redact_in_place(spec: &mut pb::BenchSpec)
    ensures
        is_redaction(*old(spec), *final(spec)),
        holds_no_secret(*final(spec)),
        final(spec)@ == redacted_view(old(spec)@),
{
    match &mut spec.read {
        Some(read) => match &mut read.s3_consistency_check {
            Some(s3) => {
                s3.access_key = REDACTED.to_owned();
                s3.secret_key = REDACTED.to_owned();
                s3.session_token = REDACTED.to_owned();
            },
            None => {},
        },
        None => {},
    }
}

/// The specification with its secrets replaced.
#[must_use]
pub fn redacted(spec: pb::BenchSpec) -> (r: pb::BenchSpec)
    ensures
        is_redaction(spec, r),
        holds_no_secret(r),
{
    let mut spec = spec;
    redact_in_place(&mut spec);
    spec
}

/// Redacting what is redacted changes nothing that the specification says.
pub proof fn law_redaction_is_idempotent(a: pb::BenchSpec, b: pb::BenchSpec, c: pb::BenchSpec)
    requires
        is_redaction(a, b),
        is_redaction(b, c),
    ensures
        c@ == b@,
        is_redaction(a, c),
{
}

/// Whatever differs between two specifications in secrets alone is redacted to
/// specifications that say the same.
pub proof fn law_redaction_forgets_secrets(
    a: pb::BenchSpec,
    b: pb::BenchSpec,
    ra: pb::BenchSpec,
    rb: pb::BenchSpec,
)
    requires
        is_redaction(a, ra),
        is_redaction(b, rb),
        check_of(a) is Some,
        check_of(b) is Some,
        b == (pb::BenchSpec {
            read: Some(
                pb::ReadConfig { s3_consistency_check: check_of(b), ..a.read->Some_0 },
            ),
            ..a
        }),
        check_of(b)->Some_0 == (pb::ConsistencyConfig {
            access_key: check_of(b)->Some_0.access_key,
            secret_key: check_of(b)->Some_0.secret_key,
            session_token: check_of(b)->Some_0.session_token,
            ..check_of(a)->Some_0
        }),
    ensures
        ra@ == rb@,
{
}

} // verus!
