//! Job specifications with typed fields, made from their text form.
//!
//! The text form is checked here for its shape only: that numbers, units and
//! names can be read and that of two exclusive fields one is set. What a
//! specification must meet beyond that is in [`validate`].

pub mod reading;
pub mod redact;
pub mod rules;
pub mod validate;

use vstd::prelude::*;

use crate::parse::duration::{duration_ms, parse_duration};
use crate::parse::rate::{parse_rate_limit, rate_of, RateLimit};
use crate::parse::size::{parse_size, size_bytes};
use crate::parse::{ParseError, ParseFault};
use crate::pb;
use crate::text;
use crate::time::Duration;

verus! {

/// Why a specification cannot be read.
#[derive(Debug)]
pub enum SpecConvertError {
    Parse { field: &'static str, source: ParseError },
    Bad { field: &'static str, message: String },
}

/// What a [`SpecConvertError`] holds.
pub enum ConvertFault {
    Parse { field: Seq<char>, fault: ParseFault },
    Bad { field: Seq<char>, message: Seq<char> },
}

impl View for SpecConvertError {
    type V = ConvertFault;

    open spec fn view(&self) -> ConvertFault {
        match *self {
            SpecConvertError::Parse { field, source } => ConvertFault::Parse {
                field: field@,
                fault: source@,
            },
            SpecConvertError::Bad { field, message } => ConvertFault::Bad {
                field: field@,
                message: message@,
            },
        }
    }
}

/// The text that shows a fault.
pub open spec fn convert_fault_text(f: ConvertFault) -> Seq<char> {
    match f {
        ConvertFault::Parse { field, fault } => field + ": "@ + crate::parse::fault_text(fault),
        ConvertFault::Bad { field, message } => field + ": "@ + message,
    }
}

impl SpecConvertError {
    /// The error as a message.
    pub fn message(&self) -> (r: String)
        ensures
            r@ == convert_fault_text(self@),
    {
        match self {
            SpecConvertError::Parse { field, source } => {
                let mut s = (*field).to_owned();
                s.push_str(": ");
                s.push_str(source.message().as_str());
                s
            },
            SpecConvertError::Bad { field, message } => {
                let mut s = (*field).to_owned();
                s.push_str(": ");
                s.push_str(message.as_str());
                s
            },
        }
    }

    /// An error with a message of its own.
    fn bad(field: &'static str, message: &str) -> (r: SpecConvertError)
        ensures
            r@ == bad(field@, message@),
    {
        SpecConvertError::Bad { field, message: message.to_owned() }
    }
}

/// The fault with a message of its own.
pub open spec fn bad(field: Seq<char>, message: Seq<char>) -> ConvertFault {
    ConvertFault::Bad { field, message }
}

/// In which order a file is accessed.
#[derive(Debug, Clone, Copy, PartialEq, Eq, Structural)]
pub enum IoMode {
    Sequential,
    Rand,
}

/// The access order that a text names.
pub open spec fn io_mode_of(s: Seq<char>) -> Result<IoMode, ConvertFault> {
    if s == "seq"@ {
        Ok(IoMode::Sequential)
    } else if s == "rand"@ {
        Ok(IoMode::Rand)
    } else {
        Err(bad("io_mode"@, "expected `seq` or `rand`, got "@ + text::quoted_text(s)))
    }
}

impl IoMode {
    /// Reads an access order.
    fn from_proto(s: &str) -> (r: Result<IoMode, SpecConvertError>)
        ensures
            match r {
                Ok(m) => io_mode_of(s@) == Ok::<IoMode, ConvertFault>(m),
                Err(e) => io_mode_of(s@) == Err::<IoMode, ConvertFault>(e@),
            },
    {
        if text::str_eq(s, "seq") {
            Ok(IoMode::Sequential)
        } else if text::str_eq(s, "rand") {
            Ok(IoMode::Rand)
        } else {
            let mut m = "expected `seq` or `rand`, got ".to_owned();
            m.push_str(text::quoted(s).as_str());
            Err(SpecConvertError::bad("io_mode", m.as_str()))
        }
    }
}

/// A metadata operation.
#[derive(Debug, Clone, Copy, PartialEq, Eq, Structural)]
pub enum MetadataOp {
    Create,
    Mkdir,
    Stat,
    Open,
    Readdir,
}

/// The metadata operation that a text names.
pub open spec fn metadata_op_of(s: Seq<char>) -> Result<MetadataOp, ConvertFault> {
    if s == "create"@ {
        Ok(MetadataOp::Create)
    } else if s == "mkdir"@ {
        Ok(MetadataOp::Mkdir)
    } else if s == "stat"@ {
        Ok(MetadataOp::Stat)
    } else if s == "open"@ {
        Ok(MetadataOp::Open)
    } else if s == "readdir"@ {
        Ok(MetadataOp::Readdir)
    } else {
        Err(bad("metadata.ops"@, "unsupported op "@ + text::quoted_text(s)))
    }
}

impl MetadataOp {
    /// Reads a metadata operation.
    fn from_proto(s: &str) -> (r: Result<MetadataOp, SpecConvertError>)
        ensures
            match r {
                Ok(m) => metadata_op_of(s@) == Ok::<MetadataOp, ConvertFault>(m),
                Err(e) => metadata_op_of(s@) == Err::<MetadataOp, ConvertFault>(e@),
            },
    {
        if text::str_eq(s, "create") {
            Ok(MetadataOp::Create)
        } else if text::str_eq(s, "mkdir") {
            Ok(MetadataOp::Mkdir)
        } else if text::str_eq(s, "stat") {
            Ok(MetadataOp::Stat)
        } else if text::str_eq(s, "open") {
            Ok(MetadataOp::Open)
        } else if text::str_eq(s, "readdir") {
            Ok(MetadataOp::Readdir)
        } else {
            let mut m = "unsupported op ".to_owned();
            m.push_str(text::quoted(s).as_str());
            Err(SpecConvertError::bad("metadata.ops", m.as_str()))
        }
    }
}

/// How the sizes of written files are spread over their range.
#[derive(Debug, Clone, Copy, PartialEq, Eq, Structural)]
pub enum SizeDistribution {
    Uniform,
    LogUniform,
}

/// The distribution that a text names; none is named by an empty text.
pub open spec fn distribution_of(s: Seq<char>) -> Result<SizeDistribution, ConvertFault> {
    if s == ""@ || s == "log_uniform"@ {
        Ok(SizeDistribution::LogUniform)
    } else if s == "uniform"@ {
        Ok(SizeDistribution::Uniform)
    } else {
        Err(
            bad(
                "write.file_size_range.distribution"@,
                "expected `uniform` / `log_uniform` / empty, got "@ + text::quoted_text(s),
            ),
        )
    }
}

impl SizeDistribution {
    /// Reads a distribution.
    fn from_proto(s: &str) -> (r: Result<SizeDistribution, SpecConvertError>)
        ensures
            match r {
                Ok(m) => distribution_of(s@) == Ok::<SizeDistribution, ConvertFault>(m),
                Err(e) => distribution_of(s@) == Err::<SizeDistribution, ConvertFault>(e@),
            },
    {
        if text::str_eq(s, "") || text::str_eq(s, "log_uniform") {
            Ok(SizeDistribution::LogUniform)
        } else if text::str_eq(s, "uniform") {
            Ok(SizeDistribution::Uniform)
        } else {
            let mut m = "expected `uniform` / `log_uniform` / empty, got ".to_owned();
            m.push_str(text::quoted(s).as_str());
            Err(SpecConvertError::bad("write.file_size_range.distribution", m.as_str()))
        }
    }
}

/// The sizes of written files.
#[derive(Debug, Clone, Copy, PartialEq, Eq, Structural)]
pub enum WriteSize {
    Fixed { bytes: u64 },
    Range { min: u64, max: u64, distribution: SizeDistribution },
}

/// Where the files to read are listed.
#[derive(Debug, PartialEq, Eq)]
pub enum ReadSource {
    FileManifest { path: String },
    DirManifest { path: String },
}

/// Where a read workload checks files against an object store.
#[derive(Debug, PartialEq, Eq)]
pub struct ConsistencyConfig {
    pub bucket_name: String,
    pub bucket_url: String,
    pub access_key: String,
    pub secret_key: String,
    pub region: String,
    pub prefix: String,
    pub session_token: String,
}

/// A read workload.
#[derive(Debug, PartialEq, Eq)]
pub struct ReadConfig {
    pub concurrency: u32,
    pub source: ReadSource,
    pub think_time: Option<Duration>,
    pub rate_limit: Option<RateLimit>,
    pub s3_consistency_check: Option<ConsistencyConfig>,
    pub loop_files: bool,
}

/// A write workload.
#[derive(Debug, PartialEq, Eq)]
pub struct WriteConfig {
    pub concurrency: u32,
    pub dir: String,
    pub size: WriteSize,
    pub fsync: bool,
    pub cleanup: bool,
    pub think_time: Option<Duration>,
    pub rate_limit: Option<RateLimit>,
    pub verify_after_write: bool,
}

/// A metadata workload. `layout_concurrency` is already the one in force.
#[derive(Debug, PartialEq, Eq)]
pub struct MetadataConfig {
    pub concurrency: u32,
    pub dir: String,
    pub dir_manifest: Option<String>,
    pub ops: Vec<MetadataOp>,
    pub read_only: bool,
    pub read_only_scan_limit: u32,
    pub depth: u32,
    pub width: u32,
    pub files_per_dir: u32,
    pub layout_concurrency: u32,
    pub think_time: Option<Duration>,
    pub rate_limit: Option<RateLimit>,
}

/// What a job is to run. `target_workers` is at least one.
#[derive(Debug, PartialEq, Eq)]
pub struct BenchSpec {
    pub fs_name: String,
    pub io_mode: IoMode,
    pub io_aligned: bool,
    pub direct_io: bool,
    pub block_size: u64,
    pub duration: Duration,
    pub warmup: Duration,
    pub target_workers: u32,
    pub read: Option<ReadConfig>,
    pub write: Option<WriteConfig>,
    pub metadata: Option<MetadataConfig>,
}

/// The span of `ms` milliseconds.
pub open spec fn millis(ms: nat) -> Duration {
    Duration { nanos: (ms * 1_000_000) as u128 }
}

/// The size in a field that must be set.
pub open spec fn required_size(field: Seq<char>, raw: Seq<char>) -> Result<u64, ConvertFault> {
    match size_bytes(raw, crate::parse::size::FIELD@) {
        Ok(Some(v)) => Ok(v as u64),
        Ok(None) => Err(bad(field, "must be set"@)),
        Err(fault) => Err(ConvertFault::Parse { field, fault }),
    }
}

/// The duration in a field that must be set.
pub open spec fn required_duration(field: Seq<char>, raw: Seq<char>) -> Result<
    Duration,
    ConvertFault,
> {
    match duration_ms(raw) {
        Ok(Some(ms)) => Ok(millis(ms)),
        Ok(None) => Err(bad(field, "must be set"@)),
        Err(fault) => Err(ConvertFault::Parse { field, fault }),
    }
}

/// The duration in a field that may be empty.
pub open spec fn optional_duration(field: Seq<char>, raw: Seq<char>) -> Result<
    Option<Duration>,
    ConvertFault,
> {
    match duration_ms(raw) {
        Ok(Some(ms)) => Ok(Some(millis(ms))),
        Ok(None) => Ok(None),
        Err(fault) => Err(ConvertFault::Parse { field, fault }),
    }
}

/// The rate limit in a field that may be empty.
pub open spec fn optional_rate(field: Seq<char>, raw: Seq<char>) -> Result<
    Option<RateLimit>,
    ConvertFault,
> {
    match rate_of(raw) {
        Ok(v) => Ok(v),
        Err(fault) => Err(ConvertFault::Parse { field, fault }),
    }
}

/// The concurrency in a field, which must be positive.
pub open spec fn concurrency_of(field: Seq<char>, raw: i32) -> Result<u32, ConvertFault> {
    if raw <= 0 {
        Err(bad(field, "must be positive, got "@ + text::signed_decimal(raw as int)))
    } else {
        Ok(raw as u32)
    }
}

fn parse_required_size(field: &'static str, raw: &str) -> (r: Result<u64, SpecConvertError>)
    ensures
        match r {
            Ok(v) => required_size(field@, raw@) == Ok::<u64, ConvertFault>(v),
            Err(e) => required_size(field@, raw@) == Err::<u64, ConvertFault>(e@),
        },
{
    match parse_size(raw) {
        Ok(Some(v)) => Ok(v),
        Ok(None) => Err(SpecConvertError::bad(field, "must be set")),
        Err(source) => Err(SpecConvertError::Parse { field, source }),
    }
}

fn parse_required_duration(field: &'static str, raw: &str) -> (r: Result<Duration, SpecConvertError>)
    ensures
        match r {
            Ok(v) => required_duration(field@, raw@) == Ok::<Duration, ConvertFault>(v),
            Err(e) => required_duration(field@, raw@) == Err::<Duration, ConvertFault>(e@),
        },
{
    match parse_duration(raw) {
        Ok(Some(v)) => Ok(v),
        Ok(None) => Err(SpecConvertError::bad(field, "must be set")),
        Err(source) => Err(SpecConvertError::Parse { field, source }),
    }
}

fn parse_optional_duration(field: &'static str, raw: &str) -> (r: Result<
    Option<Duration>,
    SpecConvertError,
>)
    ensures
        match r {
            Ok(v) => optional_duration(field@, raw@) == Ok::<Option<Duration>, ConvertFault>(v),
            Err(e) => optional_duration(field@, raw@) == Err::<Option<Duration>, ConvertFault>(e@),
        },
{
    match parse_duration(raw) {
        Ok(v) => Ok(v),
        Err(source) => Err(SpecConvertError::Parse { field, source }),
    }
}

fn parse_optional_rate(field: &'static str, raw: &str) -> (r: Result<
    Option<RateLimit>,
    SpecConvertError,
>)
    ensures
        match r {
            Ok(v) => optional_rate(field@, raw@) == Ok::<Option<RateLimit>, ConvertFault>(v),
            Err(e) => optional_rate(field@, raw@) == Err::<Option<RateLimit>, ConvertFault>(e@),
        },
{
    match parse_rate_limit(raw) {
        Ok(v) => Ok(v),
        Err(source) => Err(SpecConvertError::Parse { field, source }),
    }
}

fn convert_concurrency(field: &'static str, raw: i32) -> (r: Result<u32, SpecConvertError>)
    ensures
        match r {
            Ok(v) => concurrency_of(field@, raw) == Ok::<u32, ConvertFault>(v),
            Err(e) => concurrency_of(field@, raw) == Err::<u32, ConvertFault>(e@),
        },
{
    if raw <= 0 {
        let mut m = "must be positive, got ".to_owned();
        m.push_str(text::signed_decimal_of(raw as i64).as_str());
        return Err(SpecConvertError::bad(field, m.as_str()));
    }
    Ok(raw as u32)
}

/// Where a read workload finds its files: exactly one list must be named.
pub open spec fn source_of(p: pb::ReadConfig) -> Result<ReadSource, ConvertFault> {
    if p.file_manifest@.len() == 0 && p.dir_manifest@.len() == 0 {
        Err(bad("read"@, "either file_manifest or dir_manifest must be set"@))
    } else if p.file_manifest@.len() > 0 && p.dir_manifest@.len() > 0 {
        Err(bad("read"@, "file_manifest and dir_manifest are mutually exclusive"@))
    } else if p.file_manifest@.len() > 0 {
        Ok(ReadSource::FileManifest { path: p.file_manifest })
    } else {
        Ok(ReadSource::DirManifest { path: p.dir_manifest })
    }
}

/// The consistency check with the same fields.
pub open spec fn consistency_of(c: pb::ConsistencyConfig) -> ConsistencyConfig {
    ConsistencyConfig {
        bucket_name: c.bucket_name,
        bucket_url: c.bucket_url,
        access_key: c.access_key,
        secret_key: c.secret_key,
        region: c.region,
        prefix: c.prefix,
        session_token: c.session_token,
    }
}

/// The read workload that `p` means.
pub open spec fn read_of(p: pb::ReadConfig) -> Result<ReadConfig, ConvertFault> {
    match source_of(p) {
        Err(e) => Err(e),
        Ok(source) => match concurrency_of("read.concurrency"@, p.concurrency) {
            Err(e) => Err(e),
            Ok(concurrency) => match optional_duration("read.think_time"@, p.think_time@) {
                Err(e) => Err(e),
                Ok(think_time) => match optional_rate("read.rate_limit"@, p.rate_limit@) {
                    Err(e) => Err(e),
                    Ok(rate_limit) => Ok(
                        ReadConfig {
                            concurrency,
                            source,
                            think_time,
                            rate_limit,
                            s3_consistency_check: match p.s3_consistency_check {
                                Some(c) => Some(consistency_of(c)),
                                None => None,
                            },
                            loop_files: p.loop_files,
                        },
                    ),
                },
            },
        },
    }
}

fn read_from_proto(p: pb::ReadConfig) -> (r: Result<ReadConfig, SpecConvertError>)
    ensures
        match r {
            Ok(v) => read_of(p) == Ok::<ReadConfig, ConvertFault>(v),
            Err(e) => read_of(p) == Err::<ReadConfig, ConvertFault>(e@),
        },
{
    let no_files = p.file_manifest.as_str().is_empty();
    let no_dirs = p.dir_manifest.as_str().is_empty();
    if no_files && no_dirs {
        return Err(
            SpecConvertError::bad("read", "either file_manifest or dir_manifest must be set"),
        );
    }
    if !no_files && !no_dirs {
        return Err(
            SpecConvertError::bad("read", "file_manifest and dir_manifest are mutually exclusive"),
        );
    }
    let concurrency: u32 = match convert_concurrency("read.concurrency", p.concurrency) {
        Ok(v) => v,
        Err(e) => {
            return Err(e);
        },
    };
    let think_time = match parse_optional_duration("read.think_time", p.think_time.as_str()) {
        Ok(v) => v,
        Err(e) => {
            return Err(e);
        },
    };
    let rate_limit = match parse_optional_rate("read.rate_limit", p.rate_limit.as_str()) {
        Ok(v) => v,
        Err(e) => {
            return Err(e);
        },
    };
    let source = if !no_files {
        ReadSource::FileManifest { path: p.file_manifest }
    } else {
        ReadSource::DirManifest { path: p.dir_manifest }
    };
    let s3_consistency_check = match p.s3_consistency_check {
        Some(c) => Some(consistency_from_proto(c)),
        None => None,
    };
    Ok(
        ReadConfig {
            concurrency,
            source,
            think_time,
            rate_limit,
            s3_consistency_check,
            loop_files: p.loop_files,
        },
    )
}

fn consistency_from_proto(c: pb::ConsistencyConfig) -> (r: ConsistencyConfig)
    ensures
        r == consistency_of(c),
{
    ConsistencyConfig {
        bucket_name: c.bucket_name,
        bucket_url: c.bucket_url,
        access_key: c.access_key,
        secret_key: c.secret_key,
        region: c.region,
        prefix: c.prefix,
        session_token: c.session_token,
    }
}

/// The sizes of written files: exactly one of size and range must be set.
pub open spec fn write_size_of(p: pb::WriteConfig) -> Result<WriteSize, ConvertFault> {
    match p.file_size_range {
        None => if p.file_size@.len() == 0 {
            Err(bad("write"@, "either file_size or file_size_range must be set"@))
        } else {
            match required_size("write.file_size"@, p.file_size@) {
                Ok(bytes) => Ok(WriteSize::Fixed { bytes }),
                Err(e) => Err(e),
            }
        },
        Some(range) => if p.file_size@.len() > 0 {
            Err(bad("write"@, "file_size and file_size_range are mutually exclusive"@))
        } else {
            match required_size("write.file_size_range.min"@, range.min@) {
                Err(e) => Err(e),
                Ok(min) => match required_size("write.file_size_range.max"@, range.max@) {
                    Err(e) => Err(e),
                    Ok(max) => match distribution_of(range.distribution@) {
                        Err(e) => Err(e),
                        Ok(distribution) => Ok(WriteSize::Range { min, max, distribution }),
                    },
                },
            }
        },
    }
}

/// The write workload that `p` means.
pub open spec fn write_of(p: pb::WriteConfig) -> Result<WriteConfig, ConvertFault> {
    match write_size_of(p) {
        Err(e) => Err(e),
        Ok(size) => match concurrency_of("write.concurrency"@, p.concurrency) {
            Err(e) => Err(e),
            Ok(concurrency) => match optional_duration("write.think_time"@, p.think_time@) {
                Err(e) => Err(e),
                Ok(think_time) => match optional_rate("write.rate_limit"@, p.rate_limit@) {
                    Err(e) => Err(e),
                    Ok(rate_limit) => Ok(
                        WriteConfig {
                            concurrency,
                            dir: p.dir,
                            size,
                            fsync: p.fsync,
                            cleanup: p.cleanup,
                            think_time,
                            rate_limit,
                            verify_after_write: p.verify_after_write,
                        },
                    ),
                },
            },
        },
    }
}

fn write_size_from_proto(p: &pb::WriteConfig) -> (r: Result<WriteSize, SpecConvertError>)
    ensures
        match r {
            Ok(v) => write_size_of(*p) == Ok::<WriteSize, ConvertFault>(v),
            Err(e) => write_size_of(*p) == Err::<WriteSize, ConvertFault>(e@),
        },
{
    let unset = p.file_size.as_str().is_empty();
    match &p.file_size_range {
        None => {
            if unset {
                return Err(
                    SpecConvertError::bad("write", "either file_size or file_size_range must be set"),
                );
            }
            match parse_required_size("write.file_size", p.file_size.as_str()) {
                Ok(bytes) => Ok(WriteSize::Fixed { bytes }),
                Err(e) => Err(e),
            }
        },
        Some(range) => {
            if !unset {
                return Err(
                    SpecConvertError::bad(
                        "write",
                        "file_size and file_size_range are mutually exclusive",
                    ),
                );
            }
            let min: u64 = match parse_required_size("write.file_size_range.min", range.min.as_str()) {
                Ok(v) => v,
                Err(e) => {
                    return Err(e);
                },
            };
            let max: u64 = match parse_required_size("write.file_size_range.max", range.max.as_str()) {
                Ok(v) => v,
                Err(e) => {
                    return Err(e);
                },
            };
            match SizeDistribution::from_proto(range.distribution.as_str()) {
                Ok(distribution) => Ok(WriteSize::Range { min, max, distribution }),
                Err(e) => Err(e),
            }
        },
    }
}

fn write_from_proto(p: pb::WriteConfig) -> (r: Result<WriteConfig, SpecConvertError>)
    ensures
        match r {
            Ok(v) => write_of(p) == Ok::<WriteConfig, ConvertFault>(v),
            Err(e) => write_of(p) == Err::<WriteConfig, ConvertFault>(e@),
        },
{
    let size = match write_size_from_proto(&p) {
        Ok(v) => v,
        Err(e) => {
            return Err(e);
        },
    };
    let concurrency: u32 = match convert_concurrency("write.concurrency", p.concurrency) {
        Ok(v) => v,
        Err(e) => {
            return Err(e);
        },
    };
    let think_time = match parse_optional_duration("write.think_time", p.think_time.as_str()) {
        Ok(v) => v,
        Err(e) => {
            return Err(e);
        },
    };
    let rate_limit = match parse_optional_rate("write.rate_limit", p.rate_limit.as_str()) {
        Ok(v) => v,
        Err(e) => {
            return Err(e);
        },
    };
    Ok(
        WriteConfig {
            concurrency,
            dir: p.dir,
            size,
            fsync: p.fsync,
            cleanup: p.cleanup,
            think_time,
            rate_limit,
            verify_after_write: p.verify_after_write,
        },
    )
}

/// The operations that the texts name, or the fault of the first that names
/// none.
pub open spec fn ops_of(names: Seq<Seq<char>>) -> Result<Seq<MetadataOp>, ConvertFault>
    decreases names.len(),
{
    if names.len() == 0 {
        Ok(Seq::empty())
    } else {
        match ops_of(names.drop_last()) {
            Err(e) => Err(e),
            Ok(ops) => match metadata_op_of(names.last()) {
                Err(e) => Err(e),
                Ok(op) => Ok(ops.push(op)),
            },
        }
    }
}

/// Once a text names no operation, no longer list of texts is read.
proof fn lemma_ops_fault(names: Seq<Seq<char>>, n: int)
    requires
        0 <= n <= names.len(),
        ops_of(names.take(n)) is Err,
    ensures
        ops_of(names) == ops_of(names.take(n)),
    decreases names.len() - n,
{
    if n == names.len() {
        assert(names.take(n) =~= names);
    } else {
        assert(names.take(n + 1).drop_last() =~= names.take(n));
        lemma_ops_fault(names, n + 1);
    }
}

fn ops_from_proto(names: &Vec<String>) -> (r: Result<Vec<MetadataOp>, SpecConvertError>)
    ensures
        match r {
            Ok(v) => ops_of(text::views(names@)) == Ok::<Seq<MetadataOp>, ConvertFault>(v@),
            Err(e) => ops_of(text::views(names@)) == Err::<Seq<MetadataOp>, ConvertFault>(e@),
        },
{
    let mut out: Vec<MetadataOp> = Vec::new();
    let ghost v = text::views(names@);
    let mut i: usize = 0;
    while i < names.len()
        invariant
            i <= names@.len(),
            v == text::views(names@),
            ops_of(v.take(i as int)) == Ok::<Seq<MetadataOp>, ConvertFault>(out@),
        decreases names@.len() - i,
    {
        assert(v.take(i as int + 1).drop_last() =~= v.take(i as int));
        assert(v.take(i as int + 1).last() == names@[i as int]@);
        match MetadataOp::from_proto(names[i].as_str()) {
            Ok(op) => {
                out.push(op);
            },
            Err(e) => {
                proof {
                    lemma_ops_fault(v, i as int + 1);
                }
                return Err(e);
            },
        }
        i += 1;
    }
    assert(v.take(i as int) =~= v);
    Ok(out)
}

/// A count in a field, which must not be negative.
pub open spec fn count_of(field: Seq<char>, raw: i32) -> Result<u32, ConvertFault> {
    if raw < 0 {
        Err(bad(field, "negative"@))
    } else {
        Ok(raw as u32)
    }
}

fn convert_count(field: &'static str, raw: i32) -> (r: Result<u32, SpecConvertError>)
    ensures
        match r {
            Ok(v) => count_of(field@, raw) == Ok::<u32, ConvertFault>(v),
            Err(e) => count_of(field@, raw) == Err::<u32, ConvertFault>(e@),
        },
{
    if raw < 0 {
        return Err(SpecConvertError::bad(field, "negative"));
    }
    Ok(raw as u32)
}

/// The shape of a metadata workload's tree, as far as it is made of counts.
pub open spec fn counts_of(p: pb::MetadataConfig) -> Result<(u32, u32, u32, u32), ConvertFault> {
    match count_of("metadata.depth"@, p.depth) {
        Err(e) => Err(e),
        Ok(depth) => match count_of("metadata.width"@, p.width) {
            Err(e) => Err(e),
            Ok(width) => match count_of("metadata.files_per_dir"@, p.files_per_dir) {
                Err(e) => Err(e),
                Ok(files) => match count_of("metadata.read_only_scan_limit"@, p.read_only_scan_limit) {
                    Err(e) => Err(e),
                    Ok(limit) => Ok((depth, width, files, limit)),
                },
            },
        },
    }
}

/// The metadata workload that `p` means, with `ops` for its list of
/// operations.
pub open spec fn metadata_of(p: pb::MetadataConfig, ops: Vec<MetadataOp>) -> Result<
    MetadataConfig,
    ConvertFault,
> {
    match ops_of(text::views(p.ops@)) {
        Err(e) => Err(e),
        Ok(_) => match concurrency_of("metadata.concurrency"@, p.concurrency) {
            Err(e) => Err(e),
            Ok(concurrency) => match counts_of(p) {
                Err(e) => Err(e),
                Ok((depth, width, files_per_dir, read_only_scan_limit)) => match optional_duration(
                    "metadata.think_time"@,
                    p.think_time@,
                ) {
                    Err(e) => Err(e),
                    Ok(think_time) => match optional_rate("metadata.rate_limit"@, p.rate_limit@) {
                        Err(e) => Err(e),
                        Ok(rate_limit) => Ok(
                            MetadataConfig {
                                concurrency,
                                dir: p.dir,
                                dir_manifest: if p.dir_manifest@.len() == 0 {
                                    None
                                } else {
                                    Some(p.dir_manifest)
                                },
                                ops,
                                read_only: p.read_only,
                                read_only_scan_limit,
                                depth,
                                width,
                                files_per_dir,
                                layout_concurrency: if p.layout_concurrency <= 0 {
                                    concurrency
                                } else {
                                    p.layout_concurrency as u32
                                },
                                think_time,
                                rate_limit,
                            },
                        ),
                    },
                },
            },
        },
    }
}

fn counts_from_proto(p: &pb::MetadataConfig) -> (r: Result<(u32, u32, u32, u32), SpecConvertError>)
    ensures
        match r {
            Ok(v) => counts_of(*p) == Ok::<(u32, u32, u32, u32), ConvertFault>(v),
            Err(e) => counts_of(*p) == Err::<(u32, u32, u32, u32), ConvertFault>(e@),
        },
{
    let depth: u32 = match convert_count("metadata.depth", p.depth) {
        Ok(v) => v,
        Err(e) => {
            return Err(e);
        },
    };
    let width: u32 = match convert_count("metadata.width", p.width) {
        Ok(v) => v,
        Err(e) => {
            return Err(e);
        },
    };
    let files: u32 = match convert_count("metadata.files_per_dir", p.files_per_dir) {
        Ok(v) => v,
        Err(e) => {
            return Err(e);
        },
    };
    let limit: u32 = match convert_count("metadata.read_only_scan_limit", p.read_only_scan_limit) {
        Ok(v) => v,
        Err(e) => {
            return Err(e);
        },
    };
    Ok((depth, width, files, limit))
}

fn metadata_from_proto(p: pb::MetadataConfig) -> (r: Result<MetadataConfig, SpecConvertError>)
    ensures
        match r {
            Ok(v) => metadata_of(p, v.ops) == Ok::<MetadataConfig, ConvertFault>(v) && ops_of(
                text::views(p.ops@),
            ) == Ok::<Seq<MetadataOp>, ConvertFault>(v.ops@),
            Err(e) => forall|ops: Vec<MetadataOp>| #[trigger]
                metadata_of(p, ops) == Err::<MetadataConfig, ConvertFault>(e@),
        },
{
    let ops = match ops_from_proto(&p.ops) {
        Ok(v) => v,
        Err(e) => {
            return Err(e);
        },
    };
    let concurrency: u32 = match convert_concurrency("metadata.concurrency", p.concurrency) {
        Ok(v) => v,
        Err(e) => {
            return Err(e);
        },
    };
    let layout_concurrency: u32 = if p.layout_concurrency <= 0 {
        concurrency
    } else {
        p.layout_concurrency as u32
    };
    let (depth, width, files_per_dir, read_only_scan_limit) = match counts_from_proto(&p) {
        Ok(v) => v,
        Err(e) => {
            return Err(e);
        },
    };
    let think_time = match parse_optional_duration("metadata.think_time", p.think_time.as_str()) {
        Ok(v) => v,
        Err(e) => {
            return Err(e);
        },
    };
    let rate_limit = match parse_optional_rate("metadata.rate_limit", p.rate_limit.as_str()) {
        Ok(v) => v,
        Err(e) => {
            return Err(e);
        },
    };
    Ok(
        MetadataConfig {
            concurrency,
            dir: p.dir,
            dir_manifest: if p.dir_manifest.as_str().is_empty() {
                None
            } else {
                Some(p.dir_manifest)
            },
            ops,
            read_only: p.read_only,
            read_only_scan_limit,
            depth,
            width,
            files_per_dir,
            layout_concurrency,
            think_time,
            rate_limit,
        },
    )
}

/// The typed specification that `p` means, with `ops` for the metadata
/// workload's list of operations.
pub open spec fn spec_of(p: pb::BenchSpec, ops: Vec<MetadataOp>) -> Result<BenchSpec, ConvertFault> {
    match header_of(p) {
        Err(e) => Err(e),
        Ok((io_mode, block_size, duration, warmup)) => match opt_read_of(p.read) {
            Err(e) => Err(e),
            Ok(read) => match opt_write_of(p.write) {
                Err(e) => Err(e),
                Ok(write) => match opt_metadata_of(p.metadata, ops) {
                    Err(e) => Err(e),
                    Ok(metadata) => Ok(
                        BenchSpec {
                            fs_name: p.fs_name,
                            io_mode,
                            io_aligned: p.io_aligned,
                            direct_io: p.direct_io,
                            block_size,
                            duration,
                            warmup,
                            target_workers: if p.target_workers <= 0 {
                                1
                            } else {
                                p.target_workers as u32
                            },
                            read,
                            write,
                            metadata,
                        },
                    ),
                },
            },
        },
    }
}

/// The fields that every specification has: access order, block size,
/// duration and warm-up, which defaults to none.
pub open spec fn header_of(p: pb::BenchSpec) -> Result<
    (IoMode, u64, Duration, Duration),
    ConvertFault,
> {
    match io_mode_of(p.io_mode@) {
        Err(e) => Err(e),
        Ok(io_mode) => match required_size("block_size"@, p.block_size@) {
            Err(e) => Err(e),
            Ok(block_size) => match required_duration("duration"@, p.duration@) {
                Err(e) => Err(e),
                Ok(duration) => match optional_duration("warmup"@, p.warmup@) {
                    Err(e) => Err(e),
                    Ok(Some(warmup)) => Ok((io_mode, block_size, duration, warmup)),
                    Ok(None) => Ok((io_mode, block_size, duration, millis(0))),
                },
            },
        },
    }
}

/// The optional read workload.
pub open spec fn opt_read_of(p: Option<pb::ReadConfig>) -> Result<Option<ReadConfig>, ConvertFault> {
    match p {
        None => Ok(None),
        Some(x) => match read_of(x) {
            Ok(v) => Ok(Some(v)),
            Err(e) => Err(e),
        },
    }
}

/// The optional write workload.
pub open spec fn opt_write_of(p: Option<pb::WriteConfig>) -> Result<
    Option<WriteConfig>,
    ConvertFault,
> {
    match p {
        None => Ok(None),
        Some(x) => match write_of(x) {
            Ok(v) => Ok(Some(v)),
            Err(e) => Err(e),
        },
    }
}

/// The optional metadata workload.
pub open spec fn opt_metadata_of(p: Option<pb::MetadataConfig>, ops: Vec<MetadataOp>) -> Result<
    Option<MetadataConfig>,
    ConvertFault,
> {
    match p {
        None => Ok(None),
        Some(x) => match metadata_of(x, ops) {
            Ok(v) => Ok(Some(v)),
            Err(e) => Err(e),
        },
    }
}

fn header_from_proto(p: &pb::BenchSpec) -> (r: Result<
    (IoMode, u64, Duration, Duration),
    SpecConvertError,
>)
    ensures
        match r {
            Ok(v) => header_of(*p) == Ok::<(IoMode, u64, Duration, Duration), ConvertFault>(v),
            Err(e) => header_of(*p) == Err::<(IoMode, u64, Duration, Duration), ConvertFault>(e@),
        },
{
    let io_mode = match IoMode::from_proto(p.io_mode.as_str()) {
        Ok(v) => v,
        Err(e) => {
            return Err(e);
        },
    };
    let block_size: u64 = match parse_required_size("block_size", p.block_size.as_str()) {
        Ok(v) => v,
        Err(e) => {
            return Err(e);
        },
    };
    let duration = match parse_required_duration("duration", p.duration.as_str()) {
        Ok(v) => v,
        Err(e) => {
            return Err(e);
        },
    };
    let warmup = match parse_optional_duration("warmup", p.warmup.as_str()) {
        Ok(Some(v)) => v,
        Ok(None) => Duration::from_millis(0),
        Err(e) => {
            return Err(e);
        },
    };
    Ok((io_mode, block_size, duration, warmup))
}

/// Whether the typed specification `s` is what `p` means.
pub open spec fn is_spec_of(s: BenchSpec, p: pb::BenchSpec) -> bool {
    match (s.metadata, p.metadata) {
        (Some(m), Some(x)) => spec_of(p, m.ops) == Ok::<BenchSpec, ConvertFault>(s) && ops_of(
            text::views(x.ops@),
        ) == Ok::<Seq<MetadataOp>, ConvertFault>(m.ops@),
        (None, None) => forall|ops: Vec<MetadataOp>| #[trigger]
            spec_of(p, ops) == Ok::<BenchSpec, ConvertFault>(s),
        _ => false,
    }
}

/// Whether `p` cannot be read, for the reason `f`.
pub open spec fn is_fault_of(f: ConvertFault, p: pb::BenchSpec) -> bool {
    forall|ops: Vec<MetadataOp>| #[trigger] spec_of(p, ops) == Err::<BenchSpec, ConvertFault>(f)
}

impl BenchSpec {
    /// Reads the fields of a specification. Whether they make sense together
    /// is for [`validate::validate`] to say.
    pub fn try_from_proto(spec: pb::BenchSpec) -> (r: Result<BenchSpec, SpecConvertError>)
        ensures
            match r {
                Ok(s) => is_spec_of(s, spec),
                Err(e) => is_fault_of(e@, spec),
            },
    {
        let (io_mode, block_size, duration, warmup) = match header_from_proto(&spec) {
            Ok(v) => v,
            Err(e) => {
                return Err(e);
            },
        };
        let read = match spec.read {
            None => None,
            Some(x) => match read_from_proto(x) {
                Ok(v) => Some(v),
                Err(e) => {
                    return Err(e);
                },
            },
        };
        let write = match spec.write {
            None => None,
            Some(x) => match write_from_proto(x) {
                Ok(v) => Some(v),
                Err(e) => {
                    return Err(e);
                },
            },
        };
        let metadata = match spec.metadata {
            None => None,
            Some(x) => match metadata_from_proto(x) {
                Ok(v) => Some(v),
                Err(e) => {
                    return Err(e);
                },
            },
        };
        let target_workers: u32 = if spec.target_workers <= 0 {
            1
        } else {
            spec.target_workers as u32
        };
        Ok(
            BenchSpec {
                fs_name: spec.fs_name,
                io_mode,
                io_aligned: spec.io_aligned,
                direct_io: spec.direct_io,
                block_size,
                duration,
                warmup,
                target_workers,
                read,
                write,
                metadata,
            },
        )
    }
}

/// A specification that is read asks for at least one worker.
pub proof fn law_target_workers_is_positive(p: pb::BenchSpec, s: BenchSpec)
    requires
        is_spec_of(s, p),
    ensures
        s.target_workers >= 1,
        p.target_workers > 0 ==> s.target_workers == p.target_workers,
{
    match s.metadata {
        Some(m) => {
            assert(spec_of(p, m.ops) == Ok::<BenchSpec, ConvertFault>(s));
        },
        None => {
            let ops: Vec<MetadataOp> = arbitrary();
            assert(spec_of(p, ops) == Ok::<BenchSpec, ConvertFault>(s));
        },
    }
}

} // verus!
