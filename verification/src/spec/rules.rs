//! Which specifications pass, and what is said of those that do not.

use vstd::prelude::*;

use crate::parse::rate::RateLimit;
use crate::path_safe::relative_fault;
use crate::spec::{
    validate, BenchSpec, ConsistencyConfig, MetadataConfig, MetadataOp, ReadConfig, ReadSource,
    WriteConfig, WriteSize,
};
use crate::spec::validate::{
    dirs_at, dirs_below, header_rules, layout_rules, metadata_rules, ops_rules, path_rule,
    read_rules, violations, write_rules, LayoutCaps, ValidationContext, ViolationView,
};
use crate::text::decimal;

verus! {

/// Whether the fields that every specification has are in order.
pub open spec fn header_is_sound(s: BenchSpec) -> bool {
    &&& s.fs_name@.len() > 0
    &&& s.duration.nanos > 0
    &&& s.warmup.nanos == 0 || s.warmup.nanos < s.duration.nanos
    &&& s.block_size > 0 && s.block_size % 512 == 0
    &&& s.direct_io ==> s.io_aligned
    &&& s.read is Some || s.write is Some || s.metadata is Some
}

/// Whether a credential is given; a placeholder counts where it is allowed.
pub open spec fn is_given(credential: Seq<char>, placeholder: bool) -> bool {
    credential.len() > 0 && (credential == "***"@ ==> placeholder)
}

/// Whether a consistency check is in order.
pub open spec fn check_is_sound(c: ConsistencyConfig, placeholder: bool) -> bool {
    &&& c.bucket_name@.len() > 0
    &&& c.bucket_url@.len() > 0
    &&& c.region@.len() > 0
    &&& is_given(c.access_key@, placeholder)
    &&& is_given(c.secret_key@, placeholder)
}

/// Whether a read workload is in order.
pub open spec fn read_is_sound(r: ReadConfig, placeholder: bool) -> bool {
    &&& r.concurrency > 0
    &&& match r.source {
        ReadSource::FileManifest { path } => path@.len() > 0,
        ReadSource::DirManifest { path } => path@.len() > 0,
    }
    &&& !(r.rate_limit matches Some(RateLimit::Iops { .. }))
    &&& r.s3_consistency_check matches Some(c) ==> check_is_sound(c, placeholder)
}

/// Whether a write workload is in order.
pub open spec fn write_is_sound(w: WriteConfig) -> bool {
    &&& w.concurrency > 0
    &&& relative_fault(w.dir@) is None
    &&& match w.size {
        WriteSize::Fixed { bytes } => bytes > 0,
        WriteSize::Range { min, max, .. } => 0 < min <= max,
    }
    &&& !(w.rate_limit matches Some(RateLimit::Iops { .. }))
}

/// How many directories a full tree has from the first level below its root down
/// to the level `depth`.
pub open spec fn tree_size(width: nat, depth: nat) -> nat
    decreases depth,
{
    if depth == 0 {
        0
    } else {
        width + width * tree_size(width, (depth - 1) as nat)
    }
}

/// Whether a metadata workload is in order.
pub open spec fn metadata_is_sound(m: MetadataConfig, caps: LayoutCaps) -> bool {
    let builds = m.dir_manifest is None && !m.read_only;
    let dirs = tree_size(m.width as nat, m.depth as nat);
    &&& m.concurrency > 0 && m.layout_concurrency > 0
    &&& match m.dir_manifest {
        Some(path) => path@.len() > 0,
        None => relative_fault(m.dir@) is None,
    }
    &&& m.ops@.len() > 0
    &&& m.dir_manifest is Some ==> forall|i: int|
        0 <= i < m.ops@.len() ==> #[trigger] m.ops@[i] == MetadataOp::Stat
    &&& m.read_only ==> forall|i: int|
        0 <= i < m.ops@.len() ==> #[trigger] m.ops@[i] != MetadataOp::Create && m.ops@[i]
            != MetadataOp::Mkdir
    &&& builds ==> m.depth > 0 && m.width > 0
    &&& builds && m.files_per_dir == 0 ==> forall|i: int|
        0 <= i < m.ops@.len() ==> #[trigger] m.ops@[i] != MetadataOp::Stat && m.ops@[i]
            != MetadataOp::Open
    &&& m.depth <= caps.max_depth
    &&& m.width <= caps.max_width
    &&& m.files_per_dir <= caps.max_files_per_dir
    &&& m.depth > 0 && m.width > 0 ==> dirs <= caps.max_total_dirs && dirs * m.files_per_dir as nat
        <= caps.max_total_files
    &&& !(m.rate_limit matches Some(RateLimit::Throughput { .. }))
}

/// Whether a specification is in order.
pub open spec fn is_sound(s: BenchSpec, ctx: ValidationContext) -> bool {
    &&& header_is_sound(s)
    &&& s.read matches Some(r) ==> read_is_sound(r, ctx.allow_redacted_consistency_credentials)
    &&& s.write matches Some(w) ==> write_is_sound(w)
    &&& s.metadata matches Some(m) ==> metadata_is_sound(m, ctx.layout_caps)
}

proof fn lemma_tree(width: nat, depth: nat)
    ensures
        dirs_below(width, depth) == tree_size(width, depth),
        depth > 0 ==> dirs_below(width, depth) == width + width * dirs_below(
            width,
            (depth - 1) as nat,
        ),
    decreases depth,
{
    if depth > 0 {
        let d = (depth - 1) as nat;
        lemma_tree(width, d);
        lemma_level(width, d);
        lemma_level(width, depth);
        if d > 0 {
            let c = (d - 1) as nat;
            assert(dirs_below(width, d) == width + width * dirs_below(width, c));
            assert(dirs_below(width, depth) == dirs_below(width, d) + dirs_at(width, depth));
            assert(dirs_at(width, depth) == width * dirs_at(width, d));
            assert(dirs_below(width, d) == dirs_below(width, c) + dirs_at(width, d));
            assert(width * dirs_below(width, d) == width * dirs_below(width, c) + width * dirs_at(
                width,
                d,
            )) by (nonlinear_arith)
                requires
                    dirs_below(width, d) == dirs_below(width, c) + dirs_at(width, d),
            ;
        } else {
            reveal_with_fuel(dirs_below, 2);
            reveal_with_fuel(dirs_at, 2);
            assert(1 * width == width);
            assert(width * 0 == 0);
        }
    }
}

proof fn lemma_level(width: nat, depth: nat)
    ensures
        depth > 0 ==> dirs_at(width, depth) == width * dirs_at(width, (depth - 1) as nat),
{
    if depth > 0 {
        let x = dirs_at(width, (depth - 1) as nat);
        assert(x * width == width * x) by (nonlinear_arith);
    }
}

proof fn lemma_ops(v: Seq<ViolationView>, m: MetadataConfig)
    ensures
        ops_rules(v, m).len() >= v.len(),
        ops_rules(v, m).len() == v.len() <==> {
            let builds = m.dir_manifest is None && !m.read_only;
            &&& m.ops@.len() > 0
            &&& m.dir_manifest is Some ==> forall|i: int|
                0 <= i < m.ops@.len() ==> #[trigger] m.ops@[i] == MetadataOp::Stat
            &&& m.read_only ==> forall|i: int|
                0 <= i < m.ops@.len() ==> #[trigger] m.ops@[i] != MetadataOp::Create && m.ops@[i]
                    != MetadataOp::Mkdir
            &&& builds && m.files_per_dir == 0 ==> forall|i: int|
                0 <= i < m.ops@.len() ==> #[trigger] m.ops@[i] != MetadataOp::Stat && m.ops@[i]
                    != MetadataOp::Open
        },
{
}

proof fn lemma_layout(v: Seq<ViolationView>, m: MetadataConfig, caps: LayoutCaps)
    requires
        caps.max_total_dirs < u64::MAX,
        caps.max_total_files < u64::MAX,
    ensures
        layout_rules(v, m, caps).len() >= v.len(),
        layout_rules(v, m, caps).len() == v.len() <==> {
            let builds = m.dir_manifest is None && !m.read_only;
            let dirs = tree_size(m.width as nat, m.depth as nat);
            &&& builds ==> m.depth > 0 && m.width > 0
            &&& m.depth <= caps.max_depth
            &&& m.width <= caps.max_width
            &&& m.files_per_dir <= caps.max_files_per_dir
            &&& m.depth > 0 && m.width > 0 ==> dirs <= caps.max_total_dirs && dirs
                * m.files_per_dir as nat <= caps.max_total_files
        },
{
    lemma_tree(m.width as nat, m.depth as nat);
}

/// A specification passes if and only if it is in order. (The caps on the size of
/// a tree are taken to be less than the greatest number.)
pub proof fn law_sound_specifications_pass(s: BenchSpec, ctx: ValidationContext)
    requires
        ctx.layout_caps.max_total_dirs < u64::MAX,
        ctx.layout_caps.max_total_files < u64::MAX,
    ensures
        violations(s, ctx).len() == 0 <==> is_sound(s, ctx),
{
    let placeholder = ctx.allow_redacted_consistency_credentials;
    let a = header_rules(Seq::empty(), s);
    assert(a.len() == 0 <==> header_is_sound(s));
    let b = match s.read {
        Some(r) => read_rules(a, r, placeholder),
        None => a,
    };
    assert(b.len() == 0 <==> a.len() == 0 && (s.read matches Some(r) ==> read_is_sound(
        r,
        placeholder,
    )));
    let c = match s.write {
        Some(w) => write_rules(b, w),
        None => b,
    };
    assert(c.len() == 0 <==> b.len() == 0 && (s.write matches Some(w) ==> write_is_sound(w)));
    if let Some(m) = s.metadata {
        let d = validate::when(c, m.concurrency == 0, "metadata.concurrency"@, "must be > 0"@);
        let d = validate::when(d, m.layout_concurrency == 0, "metadata.layout_concurrency"@, "must be > 0"@);
        let d = match m.dir_manifest {
            Some(path) => validate::when(
                d,
                path@.len() == 0,
                "metadata.dir_manifest"@,
                "must not be empty"@,
            ),
            None => path_rule(d, "metadata.dir"@, m.dir@),
        };
        lemma_ops(d, m);
        lemma_layout(ops_rules(d, m), m, ctx.layout_caps);
    }
}

/// Whether something is said of a field.
pub open spec fn is_named(v: Seq<ViolationView>, field: Seq<char>) -> bool {
    exists|i: int| 0 <= i < v.len() && (#[trigger] v[i]).field == field
}

/// Whether all that is said in `v` is said in `w`.
spec fn carries_over(v: Seq<ViolationView>, w: Seq<ViolationView>) -> bool {
    v.len() <= w.len() && w.take(v.len() as int) == v
}

proof fn lemma_still_named(v: Seq<ViolationView>, w: Seq<ViolationView>, field: Seq<char>)
    requires
        carries_over(v, w),
        is_named(v, field),
    ensures
        is_named(w, field),
{
    let i = choose|i: int| 0 <= i < v.len() && (#[trigger] v[i]).field == field;
    assert(w.take(v.len() as int)[i] == w[i]);
    assert(w[i].field == field);
}

proof fn lemma_when(v: Seq<ViolationView>, broken: bool, field: Seq<char>, message: Seq<char>)
    ensures
        carries_over(v, validate::when(v, broken, field, message)),
        broken ==> is_named(validate::when(v, broken, field, message), field),
{
    let w = validate::when(v, broken, field, message);
    assert(w.take(v.len() as int) =~= v);
    if broken {
        assert(w[v.len() as int].field == field);
    }
}

proof fn lemma_over(u: Seq<ViolationView>, v: Seq<ViolationView>, w: Seq<ViolationView>)
    requires
        carries_over(u, v),
        carries_over(v, w),
    ensures
        carries_over(u, w),
{
    assert(w.take(u.len() as int) =~= u) by {
        assert forall|i: int| 0 <= i < u.len() implies w[i] == u[i] by {
            assert(v.take(u.len() as int)[i] == v[i]);
            assert(w.take(v.len() as int)[i] == w[i]);
        }
    }
}

/// What is wrong with the fields that every specification has is said of them.
pub proof fn law_wrong_fields_are_named(s: BenchSpec, ctx: ValidationContext)
    ensures
        s.fs_name@.len() == 0 ==> is_named(violations(s, ctx), "fs_name"@),
        s.duration.nanos == 0 ==> is_named(violations(s, ctx), "duration"@),
        s.warmup.nanos > 0 && s.warmup.nanos >= s.duration.nanos ==> is_named(
            violations(s, ctx),
            "warmup"@,
        ),
        s.block_size % 512 != 0 || s.block_size == 0 ==> is_named(
            violations(s, ctx),
            "block_size"@,
        ),
        s.direct_io && !s.io_aligned ==> is_named(violations(s, ctx), "direct_io"@),
        s.read is None && s.write is None && s.metadata is None ==> is_named(
            violations(s, ctx),
            "spec"@,
        ),
{
    let all = violations(s, ctx);
    let head = header_rules(Seq::empty(), s);
    lemma_rest_carries_over(s, ctx);
    lemma_header_named(s);
    if s.fs_name@.len() == 0 {
        lemma_still_named(head, all, "fs_name"@);
    }
    if s.duration.nanos == 0 {
        lemma_still_named(head, all, "duration"@);
    }
    if s.warmup.nanos > 0 && s.warmup.nanos >= s.duration.nanos {
        lemma_still_named(head, all, "warmup"@);
    }
    if s.block_size % 512 != 0 || s.block_size == 0 {
        lemma_still_named(head, all, "block_size"@);
    }
    if s.direct_io && !s.io_aligned {
        lemma_still_named(head, all, "direct_io"@);
    }
    if s.read is None && s.write is None && s.metadata is None {
        lemma_still_named(head, all, "spec"@);
    }
}

proof fn lemma_header_named(s: BenchSpec)
    ensures
        ({
            let v = header_rules(Seq::empty(), s);
            &&& s.fs_name@.len() == 0 ==> is_named(v, "fs_name"@)
            &&& s.duration.nanos == 0 ==> is_named(v, "duration"@)
            &&& s.warmup.nanos > 0 && s.warmup.nanos >= s.duration.nanos ==> is_named(
                v,
                "warmup"@,
            )
            &&& s.block_size % 512 != 0 || s.block_size == 0 ==> is_named(v, "block_size"@)
            &&& s.direct_io && !s.io_aligned ==> is_named(v, "direct_io"@)
            &&& s.read is None && s.write is None && s.metadata is None ==> is_named(v, "spec"@)
        }),
{
    let none: Seq<ViolationView> = Seq::empty();
    let a = validate::when(none, s.fs_name@.len() == 0, "fs_name"@, "must not be empty"@);
    lemma_when(none, s.fs_name@.len() == 0, "fs_name"@, "must not be empty"@);
    let b = validate::when(a, s.duration.nanos == 0, "duration"@, "must be > 0"@);
    lemma_when(a, s.duration.nanos == 0, "duration"@, "must be > 0"@);
    let late = s.warmup.nanos != 0 && s.warmup.nanos >= s.duration.nanos;
    let why = "must be < duration ("@ + decimal(
        (s.warmup.nanos / 1_000_000) as nat,
    ) + " ms < "@ + decimal((s.duration.nanos / 1_000_000) as nat) + " ms)"@;
    let c = validate::when(b, late, "warmup"@, why);
    lemma_when(b, late, "warmup"@, why);
    let d = if s.block_size == 0 {
        validate::when(c, true, "block_size"@, "must be > 0"@)
    } else {
        validate::when(c, s.block_size % 512 != 0, "block_size"@, "must be aligned to 512 bytes"@)
    };
    lemma_when(c, true, "block_size"@, "must be > 0"@);
    lemma_when(c, s.block_size % 512 != 0, "block_size"@, "must be aligned to 512 bytes"@);
    let direct = s.direct_io && !s.io_aligned;
    let e = validate::when(d, direct, "direct_io"@, "O_DIRECT requires io_aligned=true"@);
    lemma_when(d, direct, "direct_io"@, "O_DIRECT requires io_aligned=true"@);
    let idle = s.read is None && s.write is None && s.metadata is None;
    let what = "at least one of `read` / `write` / `metadata` must be set"@;
    let f = validate::when(e, idle, "spec"@, what);
    lemma_when(e, idle, "spec"@, what);
    assert(f == header_rules(none, s));
    lemma_over(d, e, f);
    lemma_over(c, d, f);
    lemma_over(b, c, f);
    lemma_over(a, b, f);
    if s.fs_name@.len() == 0 {
        lemma_still_named(a, f, "fs_name"@);
    }
    if s.duration.nanos == 0 {
        lemma_still_named(b, f, "duration"@);
    }
    if late {
        lemma_still_named(c, f, "warmup"@);
    }
    if s.block_size % 512 != 0 || s.block_size == 0 {
        lemma_still_named(d, f, "block_size"@);
    }
    if direct {
        lemma_still_named(e, f, "direct_io"@);
    }
}

proof fn lemma_read_carries_over(v: Seq<ViolationView>, r: ReadConfig, placeholder: bool)
    ensures
        carries_over(v, read_rules(v, r, placeholder)),
{
    assert(read_rules(v, r, placeholder).take(v.len() as int) =~= v);
}

proof fn lemma_write_carries_over(v: Seq<ViolationView>, w: WriteConfig)
    ensures
        carries_over(v, write_rules(v, w)),
{
    assert(write_rules(v, w).take(v.len() as int) =~= v);
}

#[verifier::spinoff_prover]
#[verifier::rlimit(40)]
proof fn lemma_rest_carries_over(s: BenchSpec, ctx: ValidationContext)
    ensures
        carries_over(header_rules(Seq::empty(), s), violations(s, ctx)),
{
    let a = header_rules(Seq::empty(), s);
    let placeholder = ctx.allow_redacted_consistency_credentials;
    assert(a.take(a.len() as int) =~= a);
    let b = match s.read {
        Some(r) => read_rules(a, r, placeholder),
        None => a,
    };
    if let Some(r) = s.read {
        lemma_read_carries_over(a, r, placeholder);
    }
    let c = match s.write {
        Some(w) => write_rules(b, w),
        None => b,
    };
    if let Some(w) = s.write {
        lemma_write_carries_over(b, w);
    } else {
        assert(b.take(b.len() as int) =~= b);
    }
    lemma_over(a, b, c);
    if let Some(m) = s.metadata {
        let d = metadata_rules(c, m, ctx.layout_caps);
        lemma_metadata_carries_over(c, m, ctx.layout_caps);
        lemma_over(a, c, d);
    }
}

proof fn lemma_ops_carry_over(v: Seq<ViolationView>, m: MetadataConfig)
    ensures
        carries_over(v, ops_rules(v, m)),
{
    assert(ops_rules(v, m).take(v.len() as int) =~= v);
}

proof fn lemma_layout_carries_over(v: Seq<ViolationView>, m: MetadataConfig, caps: LayoutCaps)
    ensures
        carries_over(v, layout_rules(v, m, caps)),
{
    assert(layout_rules(v, m, caps).take(v.len() as int) =~= v);
}

proof fn lemma_metadata_carries_over(c: Seq<ViolationView>, m: MetadataConfig, caps: LayoutCaps)
    ensures
        carries_over(c, metadata_rules(c, m, caps)),
{
    let d = validate::when(c, m.concurrency == 0, "metadata.concurrency"@, "must be > 0"@);
    lemma_when(c, m.concurrency == 0, "metadata.concurrency"@, "must be > 0"@);
    let e = validate::when(d, m.layout_concurrency == 0, "metadata.layout_concurrency"@, "must be > 0"@);
    lemma_when(d, m.layout_concurrency == 0, "metadata.layout_concurrency"@, "must be > 0"@);
    let f = match m.dir_manifest {
        Some(path) => validate::when(e, path@.len() == 0, "metadata.dir_manifest"@, "must not be empty"@),
        None => path_rule(e, "metadata.dir"@, m.dir@),
    };
    assert(f.take(e.len() as int) =~= e);
    let g = ops_rules(f, m);
    lemma_ops_carry_over(f, m);
    let h = layout_rules(g, m, caps);
    lemma_layout_carries_over(g, m, caps);
    let all = metadata_rules(c, m, caps);
    assert(all.take(h.len() as int) =~= h);
    lemma_over(g, h, all);
    lemma_over(f, g, all);
    lemma_over(e, f, all);
    lemma_over(d, e, all);
    lemma_over(c, d, all);
}

/// A job is checked against bounds on its tree, and has to bring its own
/// credentials: no placeholder stands for them.
pub proof fn law_jobs_are_checked_against_bounds()
    ensures
        validate::default_context().layout_caps.max_depth == 8,
        validate::default_context().layout_caps.max_width == 1_000,
        validate::default_context().layout_caps.max_files_per_dir == 100_000,
        validate::default_context().layout_caps.max_total_dirs == 100_000,
        validate::default_context().layout_caps.max_total_files == 10_000_000,
        !validate::default_context().allow_redacted_consistency_credentials,
{
}

} // verus!
