//! The rules that a specification must meet. All violations are reported
//! together.

use vstd::prelude::*;

use crate::parse::rate::RateLimit;
use crate::path_safe::{relative_fault, validate_relative, PathFault, PathSafeError};
use crate::spec::redact::REDACTED;
use crate::spec::{
    BenchSpec, ConsistencyConfig, MetadataConfig, MetadataOp, ReadConfig, ReadSource, WriteConfig,
    WriteSize,
};
use crate::text;
use crate::views::seq_views;

verus! {

/// A rule that is broken: the field and what is wrong with it.
#[derive(Debug, PartialEq, Eq)]
pub struct Violation {
    pub field: String,
    pub message: String,
}

/// What a [`Violation`] holds.
#[verifier::ext_equal]
pub struct ViolationView {
    pub field: Seq<char>,
    pub message: Seq<char>,
}

impl View for Violation {
    type V = ViolationView;

    open spec fn view(&self) -> ViolationView {
        ViolationView { field: self.field@, message: self.message@ }
    }
}

impl Violation {
    fn new(field: &str, message: &str) -> (r: Violation)
        ensures
            r@ == (ViolationView { field: field@, message: message@ }),
    {
        Violation { field: field.to_owned(), message: message.to_owned() }
    }

    /// The violation as a line of text.
    pub fn message(&self) -> (r: String)
        ensures
            r@ == violation_text(self@),
    {
        let mut s = self.field.clone();
        s.push_str(": ");
        s.push_str(self.message.as_str());
        s
    }
}

/// The line of text that shows a violation.
pub open spec fn violation_text(v: ViolationView) -> Seq<char> {
    v.field + ": "@ + v.message
}

/// All the violations of a specification.
#[derive(Debug, PartialEq, Eq)]
pub struct ValidationReport {
    pub violations: Vec<Violation>,
}

impl View for ValidationReport {
    type V = Seq<ViolationView>;

    open spec fn view(&self) -> Seq<ViolationView> {
        seq_views(self.violations@)
    }
}

impl ValidationReport {
    /// Whether there is no violation.
    pub fn is_empty(&self) -> (r: bool)
        ensures
            r == (self@.len() == 0),
    {
        self.violations.len() == 0
    }

    fn push(&mut self, field: &str, message: &str)
        ensures
            final(self)@ == old(self)@.push(ViolationView { field: field@, message: message@ }),
    {
        let ghost before = self.violations@;
        let v = Violation::new(field, message);
        self.violations.push(v);
        assert(self@ =~= seq_views(before).push(v@));
    }

    /// The report as text, one line per violation.
    pub fn message(&self) -> (r: String)
        ensures
            r@ == report_text(self@),
    {
        let mut lines: Vec<String> = Vec::new();
        let mut i: usize = 0;
        while i < self.violations.len()
            invariant
                i <= self.violations@.len(),
                text::views(lines@) == violation_lines(self@).take(i as int),
            decreases self.violations@.len() - i,
        {
            let ghost before = lines@;
            let line = self.violations[i].message();
            lines.push(line);
            assert(self@[i as int] == self.violations@[i as int]@);
            assert(text::views(lines@) =~= text::views(before).push(line@));
            assert(text::views(lines@) =~= violation_lines(self@).take(i as int + 1));
            i += 1;
        }
        assert(violation_lines(self@).take(i as int) =~= violation_lines(self@));
        text::join_with(&lines, "\n")
    }
}

/// The lines that show violations.
pub open spec fn violation_lines(v: Seq<ViolationView>) -> Seq<Seq<char>> {
    v.map_values(|x: ViolationView| violation_text(x))
}

/// The text that shows violations.
pub open spec fn report_text(v: Seq<ViolationView>) -> Seq<char> {
    text::joined(violation_lines(v), "\n"@)
}

/// Bounds on the tree that a metadata workload lays out.
#[derive(Debug, Clone, Copy, PartialEq, Eq, Structural)]
pub struct LayoutCaps {
    pub max_depth: u32,
    pub max_width: u32,
    pub max_files_per_dir: u32,
    pub max_total_dirs: u64,
    pub max_total_files: u64,
}

/// The bounds where none are configured.
pub open spec fn default_caps() -> LayoutCaps {
    LayoutCaps {
        max_depth: 8,
        max_width: 1_000,
        max_files_per_dir: 100_000,
        max_total_dirs: 100_000,
        max_total_files: 10_000_000,
    }
}

impl Default for LayoutCaps {
    fn default() -> (r: LayoutCaps)
        ensures
            r == default_caps(),
    {
        LayoutCaps {
            max_depth: 8,
            max_width: 1_000,
            max_files_per_dir: 100_000,
            max_total_dirs: 100_000,
            max_total_files: 10_000_000,
        }
    }
}

/// What a specification is checked against. A worker, which gets a redacted
/// specification, allows the placeholder in place of credentials.
#[derive(Debug, Clone, Copy, PartialEq, Eq, Structural)]
pub struct ValidationContext {
    pub layout_caps: LayoutCaps,
    pub allow_redacted_consistency_credentials: bool,
}

/// The context of a job that is created.
pub open spec fn default_context() -> ValidationContext {
    ValidationContext {
        layout_caps: default_caps(),
        allow_redacted_consistency_credentials: false,
    }
}

impl Default for ValidationContext {
    fn default() -> (r: ValidationContext)
        ensures
            r == default_context(),
    {
        ValidationContext {
            layout_caps: LayoutCaps::default(),
            allow_redacted_consistency_credentials: false,
        }
    }
}

/// The violations `before`, and one more where `broken` holds.
pub open spec fn when(
    before: Seq<ViolationView>,
    broken: bool,
    field: Seq<char>,
    message: Seq<char>,
) -> Seq<ViolationView> {
    if broken {
        before.push(ViolationView { field, message })
    } else {
        before
    }
}

/// The rules on the fields that every specification has, added to `v`.
pub open spec fn header_rules(v: Seq<ViolationView>, s: BenchSpec) -> Seq<ViolationView> {
    let v = when(v, s.fs_name@.len() == 0, "fs_name"@, "must not be empty"@);
    let v = when(v, s.duration.nanos == 0, "duration"@, "must be > 0"@);
    let v = when(
        v,
        s.warmup.nanos != 0 && s.warmup.nanos >= s.duration.nanos,
        "warmup"@,
        "must be < duration ("@ + text::decimal((s.warmup.nanos / 1_000_000) as nat) + " ms < "@
            + text::decimal((s.duration.nanos / 1_000_000) as nat) + " ms)"@,
    );
    let v = if s.block_size == 0 {
        when(v, true, "block_size"@, "must be > 0"@)
    } else {
        when(v, s.block_size % 512 != 0, "block_size"@, "must be aligned to 512 bytes"@)
    };
    let v = when(
        v,
        s.direct_io && !s.io_aligned,
        "direct_io"@,
        "O_DIRECT requires io_aligned=true"@,
    );
    when(
        v,
        s.read is None && s.write is None && s.metadata is None,
        "spec"@,
        "at least one of `read` / `write` / `metadata` must be set"@,
    )
}

/// Whether a credential counts as missing.
pub open spec fn lacks(credential: Seq<char>, allow_redacted: bool) -> bool {
    credential.len() == 0 || (!allow_redacted && credential == REDACTED@)
}

/// The rules on a consistency check, added to `v`.
pub open spec fn consistency_rules(
    v: Seq<ViolationView>,
    s3: ConsistencyConfig,
    allow_redacted: bool,
) -> Seq<ViolationView> {
    let empty = "must not be empty"@;
    let v = when(v, s3.bucket_name@.len() == 0, "read.s3_consistency_check.bucket_name"@, empty);
    let v = when(v, s3.bucket_url@.len() == 0, "read.s3_consistency_check.bucket_url"@, empty);
    let v = when(v, s3.region@.len() == 0, "read.s3_consistency_check.region"@, empty);
    let v = when(
        v,
        lacks(s3.access_key@, allow_redacted),
        "read.s3_consistency_check.access_key"@,
        empty,
    );
    when(v, lacks(s3.secret_key@, allow_redacted), "read.s3_consistency_check.secret_key"@, empty)
}

/// The rules on a read workload, added to `v`.
pub open spec fn read_rules(
    v: Seq<ViolationView>,
    read: ReadConfig,
    allow_redacted: bool,
) -> Seq<ViolationView> {
    let v = when(v, read.concurrency == 0, "read.concurrency"@, "must be > 0"@);
    let v = match read.source {
        ReadSource::FileManifest { path } => when(
            v,
            path@.len() == 0,
            "read.file_manifest"@,
            "must not be empty"@,
        ),
        ReadSource::DirManifest { path } => when(
            v,
            path@.len() == 0,
            "read.dir_manifest"@,
            "must not be empty"@,
        ),
    };
    let v = when(
        v,
        read.rate_limit matches Some(RateLimit::Iops { .. }),
        "read.rate_limit"@,
        "must be a throughput rate (e.g. `1GB/s`)"@,
    );
    match read.s3_consistency_check {
        Some(s3) => consistency_rules(v, s3, allow_redacted),
        None => v,
    }
}

/// What is said of a path that is not a safe relative path.
pub open spec fn path_message(f: PathFault) -> Seq<char> {
    match f {
        PathFault::Empty => "must not be empty"@,
        PathFault::NulByte { .. } => "must not contain NUL byte"@,
        PathFault::MustBeRelative { .. } => "must be a relative path (no leading '/')"@,
        PathFault::ForbiddenComponent { path: _, component } => "must not contain component "@
            + text::quoted_text(component),
    }
}

/// The rule on a path, added to `v`.
pub open spec fn path_rule(v: Seq<ViolationView>, field: Seq<char>, path: Seq<char>) -> Seq<
    ViolationView,
> {
    match relative_fault(path) {
        Some(f) => v.push(ViolationView { field, message: path_message(f) }),
        None => v,
    }
}

/// The rules on a write workload, added to `v`.
pub open spec fn write_rules(v: Seq<ViolationView>, write: WriteConfig) -> Seq<ViolationView> {
    let v = when(v, write.concurrency == 0, "write.concurrency"@, "must be > 0"@);
    let v = path_rule(v, "write.dir"@, write.dir@);
    let v = match write.size {
        WriteSize::Fixed { bytes } => when(v, bytes == 0, "write.file_size"@, "must be > 0"@),
        WriteSize::Range { min, max, distribution: _ } => {
            let v = when(v, min == 0, "write.file_size_range.min"@, "must be > 0"@);
            when(
                v,
                max < min,
                "write.file_size_range"@,
                "min ("@ + text::decimal(min as nat) + ") must be <= max ("@ + text::decimal(
                    max as nat,
                ) + ")"@,
            )
        },
    };
    when(
        v,
        write.rate_limit matches Some(RateLimit::Iops { .. }),
        "write.rate_limit"@,
        "must be a throughput rate (e.g. `500MB/s`)"@,
    )
}

/// Whether one of the operations is `op`.
pub open spec fn has_op(ops: Seq<MetadataOp>, op: MetadataOp) -> bool {
    ops.contains(op)
}

/// The rules on the operations of a metadata workload, added to `v`.
pub open spec fn ops_rules(v: Seq<ViolationView>, m: MetadataConfig) -> Seq<ViolationView> {
    let ops = m.ops@;
    let v = when(v, ops.len() == 0, "metadata.ops"@, "must not be empty"@);
    let v = when(
        v,
        m.dir_manifest is Some && exists|i: int|
            0 <= i < ops.len() && #[trigger] ops[i] != MetadataOp::Stat,
        "metadata.ops"@,
        "metadata.dir_manifest only supports `stat`"@,
    );
    let v = when(
        v,
        m.read_only && (has_op(ops, MetadataOp::Create) || has_op(ops, MetadataOp::Mkdir)),
        "metadata.ops"@,
        "read_only=true only supports `stat`, `open`, and `readdir`"@,
    );
    when(
        v,
        m.dir_manifest is None && !m.read_only && (has_op(ops, MetadataOp::Stat) || has_op(
            ops,
            MetadataOp::Open,
        )) && m.files_per_dir == 0,
        "metadata.files_per_dir"@,
        "must be > 0 when metadata.ops contains `stat` or `open`"@,
    )
}

/// `width` to the power of `depth`.
pub open spec fn dirs_at(width: nat, depth: nat) -> nat
    decreases depth,
{
    if depth == 0 {
        1
    } else {
        dirs_at(width, (depth - 1) as nat) * width
    }
}

/// How many directories a tree has whose directories have `width` children
/// each, down to `depth`; the root is not counted.
pub open spec fn dirs_below(width: nat, depth: nat) -> nat
    decreases depth,
{
    if depth == 0 {
        0
    } else {
        dirs_below(width, (depth - 1) as nat) + dirs_at(width, depth)
    }
}

/// `n`, or the greatest 64-bit number where `n` is greater.
pub open spec fn saturated(n: nat) -> nat {
    if n > u64::MAX {
        u64::MAX as nat
    } else {
        n
    }
}

/// The rules on the tree of a metadata workload, added to `v`.
pub open spec fn layout_rules(
    v: Seq<ViolationView>,
    m: MetadataConfig,
    caps: LayoutCaps,
) -> Seq<ViolationView> {
    let built = m.dir_manifest is None && !m.read_only;
    let over = "exceeds soft cap "@;
    let v = if built && m.depth == 0 {
        when(v, true, "metadata.depth"@, "must be > 0"@)
    } else {
        when(
            v,
            m.depth > caps.max_depth,
            "metadata.depth"@,
            over + text::decimal(caps.max_depth as nat),
        )
    };
    let v = if built && m.width == 0 {
        when(v, true, "metadata.width"@, "must be > 0"@)
    } else {
        when(
            v,
            m.width > caps.max_width,
            "metadata.width"@,
            over + text::decimal(caps.max_width as nat),
        )
    };
    let v = when(
        v,
        m.files_per_dir > caps.max_files_per_dir,
        "metadata.files_per_dir"@,
        over + text::decimal(caps.max_files_per_dir as nat),
    );
    if m.depth > 0 && m.width > 0 {
        let dirs = saturated(dirs_below(m.width as nat, m.depth as nat));
        let files = saturated(dirs * m.files_per_dir as nat);
        let v = when(
            v,
            dirs > caps.max_total_dirs,
            "metadata.layout"@,
            "total directories "@ + text::decimal(dirs) + " exceeds soft cap "@ + text::decimal(
                caps.max_total_dirs as nat,
            ),
        );
        when(
            v,
            files > caps.max_total_files,
            "metadata.layout"@,
            "total files "@ + text::decimal(files) + " exceeds soft cap "@ + text::decimal(
                caps.max_total_files as nat,
            ),
        )
    } else {
        v
    }
}

/// The rules on a metadata workload, added to `v`.
pub open spec fn metadata_rules(
    v: Seq<ViolationView>,
    m: MetadataConfig,
    caps: LayoutCaps,
) -> Seq<ViolationView> {
    let v = when(v, m.concurrency == 0, "metadata.concurrency"@, "must be > 0"@);
    let v = when(v, m.layout_concurrency == 0, "metadata.layout_concurrency"@, "must be > 0"@);
    let v = match m.dir_manifest {
        Some(path) => when(
            v,
            path@.len() == 0,
            "metadata.dir_manifest"@,
            "must not be empty"@,
        ),
        None => path_rule(v, "metadata.dir"@, m.dir@),
    };
    let v = ops_rules(v, m);
    let v = layout_rules(v, m, caps);
    when(
        v,
        m.rate_limit matches Some(RateLimit::Throughput { .. }),
        "metadata.rate_limit"@,
        "must be an iops rate (e.g. `5000iops`)"@,
    )
}

/// All the violations of a specification.
pub open spec fn violations(s: BenchSpec, ctx: ValidationContext) -> Seq<ViolationView> {
    let v = header_rules(Seq::empty(), s);
    let v = match s.read {
        Some(read) => read_rules(v, read, ctx.allow_redacted_consistency_credentials),
        None => v,
    };
    let v = match s.write {
        Some(write) => write_rules(v, write),
        None => v,
    };
    match s.metadata {
        Some(m) => metadata_rules(v, m, ctx.layout_caps),
        None => v,
    }
}

/// Checks a specification against all rules.
pub fn validate(spec: &BenchSpec, ctx: &ValidationContext) -> (r: Result<(), ValidationReport>)
    ensures
        match r {
            Ok(_) => violations(*spec, *ctx).len() == 0,
            Err(report) => report@ == violations(*spec, *ctx) && report@.len() > 0,
        },
{
    let mut report = ValidationReport { violations: Vec::new() };
    assert(report@ =~= Seq::<ViolationView>::empty());
    validate_into(spec, ctx, &mut report);
    if report.is_empty() {
        Ok(())
    } else {
        Err(report)
    }
}

fn validate_into(spec: &BenchSpec, ctx: &ValidationContext, r: &mut ValidationReport)
    requires
        old(r)@ == Seq::<ViolationView>::empty(),
    ensures
        final(r)@ == violations(*spec, *ctx),
{
    validate_header(spec, r);
    if let Some(read) = &spec.read {
        validate_read(read, ctx.allow_redacted_consistency_credentials, r);
    }
    if let Some(write) = &spec.write {
        validate_write(write, r);
    }
    if let Some(m) = &spec.metadata {
        validate_metadata(m, &ctx.layout_caps, r);
    }
}

fn validate_header(spec: &BenchSpec, r: &mut ValidationReport)
    ensures
        final(r)@ == header_rules(old(r)@, *spec),
{
    if spec.fs_name.as_str().is_empty() {
        r.push("fs_name", "must not be empty");
    }
    if spec.duration.is_zero() {
        r.push("duration", "must be > 0");
    }
    if !spec.warmup.is_zero() && spec.warmup.nanos >= spec.duration.nanos {
        let mut m = "must be < duration (".to_owned();
        m.push_str(text::decimal_of(spec.warmup.as_millis()).as_str());
        m.push_str(" ms < ");
        m.push_str(text::decimal_of(spec.duration.as_millis()).as_str());
        m.push_str(" ms)");
        r.push("warmup", m.as_str());
    }
    if spec.block_size == 0 {
        r.push("block_size", "must be > 0");
    } else if spec.block_size % 512 != 0 {
        r.push("block_size", "must be aligned to 512 bytes");
    }
    if spec.direct_io && !spec.io_aligned {
        r.push("direct_io", "O_DIRECT requires io_aligned=true");
    }
    if spec.read.is_none() && spec.write.is_none() && spec.metadata.is_none() {
        r.push("spec", "at least one of `read` / `write` / `metadata` must be set");
    }
}

fn validate_read(read: &ReadConfig, allow_redacted: bool, r: &mut ValidationReport)
    ensures
        final(r)@ == read_rules(old(r)@, *read, allow_redacted),
{
    if read.concurrency == 0 {
        r.push("read.concurrency", "must be > 0");
    }
    match &read.source {
        ReadSource::FileManifest { path } => {
            if path.as_str().is_empty() {
                r.push("read.file_manifest", "must not be empty");
            }
        },
        ReadSource::DirManifest { path } => {
            if path.as_str().is_empty() {
                r.push("read.dir_manifest", "must not be empty");
            }
        },
    }
    if let Some(RateLimit::Iops { .. }) = read.rate_limit {
        r.push("read.rate_limit", "must be a throughput rate (e.g. `1GB/s`)");
    }
    if let Some(s3) = &read.s3_consistency_check {
        validate_consistency(s3, allow_redacted, r);
    }
}

fn is_missing(credential: &str, allow_redacted: bool) -> (r: bool)
    ensures
        r == lacks(credential@, allow_redacted),
{
    credential.is_empty() || (!allow_redacted && text::str_eq(credential, REDACTED))
}

fn validate_consistency(s3: &ConsistencyConfig, allow_redacted: bool, r: &mut ValidationReport)
    ensures
        final(r)@ == consistency_rules(old(r)@, *s3, allow_redacted),
{
    if s3.bucket_name.as_str().is_empty() {
        r.push("read.s3_consistency_check.bucket_name", "must not be empty");
    }
    if s3.bucket_url.as_str().is_empty() {
        r.push("read.s3_consistency_check.bucket_url", "must not be empty");
    }
    if s3.region.as_str().is_empty() {
        r.push("read.s3_consistency_check.region", "must not be empty");
    }
    if is_missing(s3.access_key.as_str(), allow_redacted) {
        r.push("read.s3_consistency_check.access_key", "must not be empty");
    }
    if is_missing(s3.secret_key.as_str(), allow_redacted) {
        r.push("read.s3_consistency_check.secret_key", "must not be empty");
    }
}

fn validate_write(write: &WriteConfig, r: &mut ValidationReport)
    ensures
        final(r)@ == write_rules(old(r)@, *write),
{
    if write.concurrency == 0 {
        r.push("write.concurrency", "must be > 0");
    }
    check_path("write.dir", write.dir.as_str(), r);
    match &write.size {
        WriteSize::Fixed { bytes } => {
            if *bytes == 0 {
                r.push("write.file_size", "must be > 0");
            }
        },
        WriteSize::Range { min, max, distribution: _ } => {
            if *min == 0 {
                r.push("write.file_size_range.min", "must be > 0");
            }
            if *max < *min {
                let mut m = "min (".to_owned();
                m.push_str(text::decimal_of(*min as u128).as_str());
                m.push_str(") must be <= max (");
                m.push_str(text::decimal_of(*max as u128).as_str());
                m.push_str(")");
                r.push("write.file_size_range", m.as_str());
            }
        },
    }
    if let Some(RateLimit::Iops { .. }) = write.rate_limit {
        r.push("write.rate_limit", "must be a throughput rate (e.g. `500MB/s`)");
    }
}

/// Whether one of `ops` is `op`.
fn contains_op(ops: &Vec<MetadataOp>, op: MetadataOp) -> (r: bool)
    ensures
        r == has_op(ops@, op),
{
    let mut i: usize = 0;
    while i < ops.len()
        invariant
            i <= ops@.len(),
            forall|j: int| 0 <= j < i ==> ops@[j] != op,
        decreases ops@.len() - i,
    {
        if ops[i] == op {
            assert(ops@[i as int] == op);
            return true;
        }
        i += 1;
    }
    false
}

/// Whether one of `ops` is not `stat`.
fn contains_other_than_stat(ops: &Vec<MetadataOp>) -> (r: bool)
    ensures
        r == exists|i: int| 0 <= i < ops@.len() && #[trigger] ops@[i] != MetadataOp::Stat,
{
    let mut i: usize = 0;
    while i < ops.len()
        invariant
            i <= ops@.len(),
            forall|j: int| 0 <= j < i ==> ops@[j] == MetadataOp::Stat,
        decreases ops@.len() - i,
    {
        if ops[i] != MetadataOp::Stat {
            assert(ops@[i as int] != MetadataOp::Stat);
            return true;
        }
        i += 1;
    }
    false
}

fn validate_metadata(m: &MetadataConfig, caps: &LayoutCaps, r: &mut ValidationReport)
    ensures
        final(r)@ == metadata_rules(old(r)@, *m, *caps),
{
    if m.concurrency == 0 {
        r.push("metadata.concurrency", "must be > 0");
    }
    if m.layout_concurrency == 0 {
        r.push("metadata.layout_concurrency", "must be > 0");
    }
    match &m.dir_manifest {
        Some(path) => {
            if path.as_str().is_empty() {
                r.push("metadata.dir_manifest", "must not be empty");
            }
        },
        None => {
            check_path("metadata.dir", m.dir.as_str(), r);
        },
    }
    validate_ops(m, r);
    validate_layout(m, caps, r);
    if let Some(RateLimit::Throughput { .. }) = m.rate_limit {
        r.push("metadata.rate_limit", "must be an iops rate (e.g. `5000iops`)");
    }
}

fn validate_ops(m: &MetadataConfig, r: &mut ValidationReport)
    ensures
        final(r)@ == ops_rules(old(r)@, *m),
{
    if m.ops.len() == 0 {
        r.push("metadata.ops", "must not be empty");
    }
    if m.dir_manifest.is_some() && contains_other_than_stat(&m.ops) {
        r.push("metadata.ops", "metadata.dir_manifest only supports `stat`");
    }
    if m.read_only && (contains_op(&m.ops, MetadataOp::Create) || contains_op(
        &m.ops,
        MetadataOp::Mkdir,
    )) {
        r.push("metadata.ops", "read_only=true only supports `stat`, `open`, and `readdir`");
    }
    let needs_files = contains_op(&m.ops, MetadataOp::Stat) || contains_op(&m.ops, MetadataOp::Open);
    if m.dir_manifest.is_none() && !m.read_only && needs_files && m.files_per_dir == 0 {
        r.push(
            "metadata.files_per_dir",
            "must be > 0 when metadata.ops contains `stat` or `open`",
        );
    }
}

/// The message that a bound is exceeded.
fn over_cap(cap: u32) -> (m: String)
    ensures
        m@ == "exceeds soft cap "@ + text::decimal(cap as nat),
{
    let mut m = "exceeds soft cap ".to_owned();
    m.push_str(text::decimal_of(cap as u128).as_str());
    m
}

/// The message that the tree has too many of something.
fn over_total(head: &str, n: u64, cap: u64) -> (m: String)
    ensures
        m@ == head@ + text::decimal(n as nat) + " exceeds soft cap "@ + text::decimal(cap as nat),
{
    let mut m = head.to_owned();
    m.push_str(text::decimal_of(n as u128).as_str());
    m.push_str(" exceeds soft cap ");
    m.push_str(text::decimal_of(cap as u128).as_str());
    m
}

fn validate_layout(m: &MetadataConfig, caps: &LayoutCaps, r: &mut ValidationReport)
    ensures
        final(r)@ == layout_rules(old(r)@, *m, *caps),
{
    let built = m.dir_manifest.is_none() && !m.read_only;
    if built && m.depth == 0 {
        r.push("metadata.depth", "must be > 0");
    } else if m.depth > caps.max_depth {
        r.push("metadata.depth", over_cap(caps.max_depth).as_str());
    }
    if built && m.width == 0 {
        r.push("metadata.width", "must be > 0");
    } else if m.width > caps.max_width {
        r.push("metadata.width", over_cap(caps.max_width).as_str());
    }
    if m.files_per_dir > caps.max_files_per_dir {
        r.push("metadata.files_per_dir", over_cap(caps.max_files_per_dir).as_str());
    }
    if m.depth > 0 && m.width > 0 {
        let dirs: u64 = total_dirs(m.depth, m.width);
        if dirs > caps.max_total_dirs {
            r.push(
                "metadata.layout",
                over_total("total directories ", dirs, caps.max_total_dirs).as_str(),
            );
        }
        let files: u64 = saturating_product(dirs, m.files_per_dir as u64);
        if files > caps.max_total_files {
            r.push(
                "metadata.layout",
                over_total("total files ", files, caps.max_total_files).as_str(),
            );
        }
    }
}

/// The product of two numbers, or the greatest number where it is greater.
fn saturating_product(a: u64, b: u64) -> (r: u64)
    ensures
        r == saturated(a as nat * b as nat),
{
    assert(a * b <= u64::MAX * u64::MAX) by (nonlinear_arith)
        requires
            a <= u64::MAX,
            b <= u64::MAX,
    ;
    assert(a as nat * b as nat == a * b) by (nonlinear_arith);
    let p: u128 = a as u128 * b as u128;
    if p > u64::MAX as u128 {
        u64::MAX
    } else {
        p as u64
    }
}

/// A deeper tree has no fewer directories.
proof fn lemma_dirs_grow(width: nat, i: nat, j: nat)
    requires
        i <= j,
    ensures
        dirs_below(width, i) <= dirs_below(width, j),
    decreases j,
{
    if i < j {
        lemma_dirs_grow(width, i, (j - 1) as nat);
    }
}

/// How many directories the tree of a metadata workload has.
pub fn total_dirs(depth: u32, width: u32) -> (r: u64)
    ensures
        r == saturated(dirs_below(width as nat, depth as nat)),
{
    let mut sum: u64 = 0;
    let mut layer: u64 = 1;
    let mut i: u32 = 0;
    while i < depth
        invariant
            i <= depth,
            sum < u64::MAX,
            layer < u64::MAX,
            sum == dirs_below(width as nat, i as nat),
            layer == dirs_at(width as nat, i as nat),
        decreases depth - i,
    {
        let ghost next = (i + 1) as nat;
        let ghost exact = layer as nat * width as nat;
        proof {
            assert(dirs_at(width as nat, next) == exact);
            lemma_dirs_grow(width as nat, next, depth as nat);
        }
        layer = saturating_product(layer, width as u64);
        let wide: u128 = sum as u128 + layer as u128;
        if wide >= u64::MAX as u128 {
            return u64::MAX;
        }
        sum = wide as u64;
        i += 1;
    }
    sum
}

fn check_path(field: &str, path: &str, r: &mut ValidationReport)
    ensures
        final(r)@ == path_rule(old(r)@, field@, path@),
{
    if let Err(e) = validate_relative(path) {
        r.push(field, render_path_error(&e).as_str());
    }
}

fn render_path_error(e: &PathSafeError) -> (r: String)
    ensures
        r@ == path_message(e@),
{
    match e {
        PathSafeError::Empty => "must not be empty".to_owned(),
        PathSafeError::NulByte { .. } => "must not contain NUL byte".to_owned(),
        PathSafeError::MustBeRelative { .. } => "must be a relative path (no leading '/')".to_owned(),
        PathSafeError::ForbiddenComponent { path: _, component } => {
            let mut m = "must not contain component ".to_owned();
            m.push_str(text::quoted(component).as_str());
            m
        },
    }
}

/// A specification that passes asks for something that can be run: it names a
/// file system and a workload, measures for some time after its warm-up, and
/// uses blocks that direct I/O can handle.
pub proof fn law_accepted_spec_can_be_run(s: BenchSpec, ctx: ValidationContext)
    requires
        violations(s, ctx).len() == 0,
    ensures
        s.fs_name@.len() > 0,
        s.read is Some || s.write is Some || s.metadata is Some,
        s.duration.nanos > 0,
        s.warmup.nanos < s.duration.nanos,
        s.block_size > 0 && s.block_size % 512 == 0,
        s.direct_io ==> s.io_aligned,
{
}

/// A tree that a specification that passes lets be built keeps to all caps.
pub proof fn law_accepted_tree_keeps_to_caps(s: BenchSpec, m: MetadataConfig, ctx: ValidationContext)
    requires
        violations(s, ctx).len() == 0,
        s.metadata == Some(m),
    ensures
        m.depth <= ctx.layout_caps.max_depth,
        m.width <= ctx.layout_caps.max_width,
        m.files_per_dir <= ctx.layout_caps.max_files_per_dir,
        m.depth > 0 && m.width > 0 && ctx.layout_caps.max_total_dirs < u64::MAX
            && ctx.layout_caps.max_total_files < u64::MAX ==> dirs_below(
            m.width as nat,
            m.depth as nat,
        ) <= ctx.layout_caps.max_total_dirs && dirs_below(m.width as nat, m.depth as nat)
            * m.files_per_dir as nat <= ctx.layout_caps.max_total_files,
        m.dir_manifest is None ==> relative_fault(m.dir@) is None,
{
}

} // verus!
