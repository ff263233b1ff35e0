//! What a specification means, once it is read.

use vstd::prelude::*;

use crate::parse::duration::duration_ms;
use crate::parse::rate::{rate_of, RateLimit};
use crate::parse::size::size_bytes;
use crate::parse::ParseFault;
use crate::pb;
use crate::spec::{
    is_fault_of, is_spec_of, ops_of, spec_of, BenchSpec, ConvertFault, IoMode, MetadataConfig,
    MetadataOp, ReadConfig, ReadSource, SizeDistribution, WriteConfig, WriteSize,
};
use crate::text;
use crate::time::Duration;

verus! {

/// Whether a text is read as the size `n`.
pub open spec fn says_size(t: Seq<char>, n: u64) -> bool {
    size_bytes(t, "size"@) == Ok::<Option<nat>, ParseFault>(Some(n as nat))
}

/// Whether a text is read as the span `d`.
pub open spec fn says_span(t: Seq<char>, d: Duration) -> bool {
    duration_ms(t) matches Ok(Some(ms)) && d.nanos == (ms * 1_000_000) as u128
}

/// Whether a text is read as a span that may be left out.
pub open spec fn may_say_span(t: Seq<char>, d: Option<Duration>) -> bool {
    match d {
        Some(x) => says_span(t, x),
        None => duration_ms(t) == Ok::<Option<nat>, ParseFault>(None),
    }
}

/// Whether a text is read as a limit that may be left out.
pub open spec fn may_say_rate(t: Seq<char>, r: Option<RateLimit>) -> bool {
    rate_of(t) == Ok::<Option<RateLimit>, ParseFault>(r)
}

/// The name of a metadata operation.
pub open spec fn op_name(op: MetadataOp) -> Seq<char> {
    match op {
        MetadataOp::Create => "create"@,
        MetadataOp::Mkdir => "mkdir"@,
        MetadataOp::Stat => "stat"@,
        MetadataOp::Open => "open"@,
        MetadataOp::Readdir => "readdir"@,
    }
}

/// Whether a read workload is the one that was written.
pub open spec fn reads_as(p: pb::ReadConfig, r: ReadConfig) -> bool {
    &&& p.concurrency > 0 && r.concurrency == p.concurrency
    &&& match r.source {
        ReadSource::FileManifest { path } => path@ == p.file_manifest@ && path@.len() > 0
            && p.dir_manifest@.len() == 0,
        ReadSource::DirManifest { path } => path@ == p.dir_manifest@ && path@.len() > 0
            && p.file_manifest@.len() == 0,
    }
    &&& may_say_span(p.think_time@, r.think_time)
    &&& may_say_rate(p.rate_limit@, r.rate_limit)
    &&& r.loop_files == p.loop_files
    &&& match (p.s3_consistency_check, r.s3_consistency_check) {
        (Some(a), Some(b)) => {
            &&& b.bucket_name@ == a.bucket_name@
            &&& b.bucket_url@ == a.bucket_url@
            &&& b.access_key@ == a.access_key@
            &&& b.secret_key@ == a.secret_key@
            &&& b.region@ == a.region@
            &&& b.prefix@ == a.prefix@
            &&& b.session_token@ == a.session_token@
        },
        (None, None) => true,
        _ => false,
    }
}

/// Whether a write workload is the one that was written.
pub open spec fn writes_as(p: pb::WriteConfig, w: WriteConfig) -> bool {
    &&& p.concurrency > 0 && w.concurrency == p.concurrency
    &&& w.dir@ == p.dir@
    &&& match w.size {
        WriteSize::Fixed { bytes } => says_size(p.file_size@, bytes) && p.file_size_range is None,
        WriteSize::Range { min, max, distribution } => p.file_size@.len() == 0 && (
        p.file_size_range matches Some(range) && says_size(range.min@, min) && says_size(
            range.max@,
            max,
        ) && match distribution {
            SizeDistribution::Uniform => range.distribution@ == "uniform"@,
            SizeDistribution::LogUniform => range.distribution@ == "log_uniform"@
                || range.distribution@ == ""@,
        }),
    }
    &&& w.fsync == p.fsync
    &&& w.cleanup == p.cleanup
    &&& w.verify_after_write == p.verify_after_write
    &&& may_say_span(p.think_time@, w.think_time)
    &&& may_say_rate(p.rate_limit@, w.rate_limit)
}

/// Whether a metadata workload is the one that was written.
pub open spec fn handles_as(p: pb::MetadataConfig, m: MetadataConfig) -> bool {
    &&& p.concurrency > 0 && m.concurrency == p.concurrency
    &&& m.dir@ == p.dir@
    &&& match m.dir_manifest {
        Some(path) => path@ == p.dir_manifest@ && path@.len() > 0,
        None => p.dir_manifest@.len() == 0,
    }
    &&& m.ops@.len() == p.ops@.len()
    &&& forall|i: int| 0 <= i < p.ops@.len() ==> op_name(m.ops@[i]) == (#[trigger] p.ops@[i])@
    &&& m.read_only == p.read_only
    &&& p.read_only_scan_limit >= 0 && m.read_only_scan_limit == p.read_only_scan_limit
    &&& p.depth >= 0 && m.depth == p.depth
    &&& p.width >= 0 && m.width == p.width
    &&& p.files_per_dir >= 0 && m.files_per_dir == p.files_per_dir
    &&& p.layout_concurrency > 0 ==> m.layout_concurrency == p.layout_concurrency
    &&& p.layout_concurrency <= 0 ==> m.layout_concurrency == m.concurrency
    &&& may_say_span(p.think_time@, m.think_time)
    &&& may_say_rate(p.rate_limit@, m.rate_limit)
}

proof fn lemma_ops(names: Seq<Seq<char>>, ops: Seq<MetadataOp>)
    requires
        ops_of(names) == Ok::<Seq<MetadataOp>, ConvertFault>(ops),
    ensures
        ops.len() == names.len(),
        forall|i: int| 0 <= i < names.len() ==> op_name(ops[i]) == #[trigger] names[i],
    decreases names.len(),
{
    if names.len() > 0 {
        let head = names.drop_last();
        let before = ops_of(head)->Ok_0;
        lemma_ops(head, before);
        assert forall|i: int| 0 <= i < names.len() implies op_name(ops[i]) == #[trigger] names[i] by {
            if i < head.len() {
                assert(head[i] == names[i]);
                assert(ops[i] == before[i]);
            }
        }
    }
}

proof fn lemma_read_so(p: pb::BenchSpec, s: BenchSpec) -> (ops: Vec<MetadataOp>)
    requires
        is_spec_of(s, p),
    ensures
        spec_of(p, ops) == Ok::<BenchSpec, ConvertFault>(s),
{
    match s.metadata {
        Some(m) => m.ops,
        None => {
            let ops: Vec<MetadataOp> = arbitrary();
            assert(spec_of(p, ops) == Ok::<BenchSpec, ConvertFault>(s));
            ops
        },
    }
}

/// A specification that is read says, field by field, what was written: names and
/// switches as they stand, sizes, spans and limits as their texts mean, and each
/// workload where one was written.
pub proof fn law_fields_mean_what_is_written(p: pb::BenchSpec, s: BenchSpec)
    requires
        is_spec_of(s, p),
    ensures
        s.fs_name@ == p.fs_name@,
        s.io_mode == IoMode::Sequential <==> p.io_mode@ == "seq"@,
        s.io_mode == IoMode::Rand ==> p.io_mode@ == "rand"@,
        s.io_aligned == p.io_aligned,
        s.direct_io == p.direct_io,
        says_size(p.block_size@, s.block_size),
        says_span(p.duration@, s.duration),
        says_span(p.warmup@, s.warmup) || (s.warmup.nanos == 0 && duration_ms(p.warmup@) == Ok::<
            Option<nat>,
            ParseFault,
        >(None)),
        match (p.read, s.read) {
            (Some(a), Some(b)) => reads_as(a, b),
            (None, None) => true,
            _ => false,
        },
        match (p.write, s.write) {
            (Some(a), Some(b)) => writes_as(a, b),
            (None, None) => true,
            _ => false,
        },
        match (p.metadata, s.metadata) {
            (Some(a), Some(b)) => handles_as(a, b),
            (None, None) => true,
            _ => false,
        },
{
    let ops = lemma_read_so(p, s);
    lemma_size_fits(p.block_size@);
    if let Some(w) = p.write {
        lemma_size_fits(w.file_size@);
        if let Some(range) = w.file_size_range {
            lemma_size_fits(range.min@);
            lemma_size_fits(range.max@);
        }
    }
    if let (Some(a), Some(b)) = (p.metadata, s.metadata) {
        let names = text::views(a.ops@);
        lemma_ops(names, b.ops@);
        assert forall|i: int| 0 <= i < a.ops@.len() implies op_name(b.ops@[i]) == (
        #[trigger] a.ops@[i])@ by {
            assert(names[i] == a.ops@[i]@);
        }
    }
}

proof fn lemma_size_fits(t: Seq<char>)
    ensures
        size_bytes(t, "size"@) matches Ok(Some(n)) ==> n <= u64::MAX,
{
}

/// Whether a size is written.
pub open spec fn is_size(t: Seq<char>) -> bool {
    size_bytes(t, "size"@) matches Ok(Some(_))
}

/// Whether a span is written, or nothing.
pub open spec fn is_span_or_blank(t: Seq<char>) -> bool {
    duration_ms(t) is Ok
}

/// Whether a limit is written, or nothing.
pub open spec fn is_rate_or_blank(t: Seq<char>) -> bool {
    rate_of(t) is Ok
}

/// Whether a text names a metadata operation.
pub open spec fn is_op(t: Seq<char>) -> bool {
    exists|op: MetadataOp| #[trigger] op_name(op) == t
}

/// Whether all that is written can be read: names are known, numbers, units and
/// counts are right, and of two fields that exclude each other one is set.
pub open spec fn is_readable(p: pb::BenchSpec) -> bool {
    &&& p.io_mode@ == "seq"@ || p.io_mode@ == "rand"@
    &&& is_size(p.block_size@)
    &&& duration_ms(p.duration@) matches Ok(Some(_))
    &&& is_span_or_blank(p.warmup@)
    &&& p.read matches Some(r) ==> {
        &&& (r.file_manifest@.len() == 0) != (r.dir_manifest@.len() == 0)
        &&& r.concurrency > 0
        &&& is_span_or_blank(r.think_time@)
        &&& is_rate_or_blank(r.rate_limit@)
    }
    &&& p.write matches Some(w) ==> {
        &&& w.concurrency > 0
        &&& match w.file_size_range {
            None => is_size(w.file_size@),
            Some(range) => w.file_size@.len() == 0 && is_size(range.min@) && is_size(range.max@) && (
            range.distribution@ == "uniform"@ || range.distribution@ == "log_uniform"@
                || range.distribution@ == ""@),
        }
        &&& is_span_or_blank(w.think_time@)
        &&& is_rate_or_blank(w.rate_limit@)
    }
    &&& p.metadata matches Some(m) ==> {
        &&& m.concurrency > 0
        &&& m.depth >= 0 && m.width >= 0 && m.files_per_dir >= 0 && m.read_only_scan_limit >= 0
        &&& forall|i: int| 0 <= i < m.ops@.len() ==> is_op((#[trigger] m.ops@[i])@)
        &&& is_span_or_blank(m.think_time@)
        &&& is_rate_or_blank(m.rate_limit@)
    }
}

proof fn lemma_ops_are_read(names: Seq<Seq<char>>)
    requires
        forall|i: int| 0 <= i < names.len() ==> is_op(#[trigger] names[i]),
    ensures
        ops_of(names) is Ok,
    decreases names.len(),
{
    if names.len() > 0 {
        let head = names.drop_last();
        assert forall|i: int| 0 <= i < head.len() implies is_op(#[trigger] head[i]) by {
            assert(head[i] == names[i]);
        }
        lemma_ops_are_read(head);
        assert(is_op(names[names.len() - 1]));
        let op = choose|op: MetadataOp| #[trigger] op_name(op) == names.last();
        assert(op_name(op) == names.last());
    }
}

/// A specification is refused only where something in it cannot be read.
pub proof fn law_only_unreadable_specifications_are_refused(p: pb::BenchSpec, f: ConvertFault)
    requires
        is_fault_of(f, p),
    ensures
        !is_readable(p),
{
    let ops: Vec<MetadataOp> = arbitrary();
    assert(spec_of(p, ops) == Err::<BenchSpec, ConvertFault>(f));
    if is_readable(p) {
        if let Some(w) = p.write {
            reveal_strlit("");
            if w.file_size_range is None {
                assert(text::trimmed(w.file_size@).len() > 0);
                if w.file_size@.len() == 0 {
                    assert(text::trimmed_start(w.file_size@) == w.file_size@);
                }
            }
        }
        if let Some(m) = p.metadata {
            let names = text::views(m.ops@);
            assert forall|i: int| 0 <= i < names.len() implies is_op(#[trigger] names[i]) by {
                assert(names[i] == m.ops@[i]@);
            }
            lemma_ops_are_read(names);
        }
    }
}

/// A specification that is read can be read.
pub proof fn law_read_specifications_are_readable(p: pb::BenchSpec, s: BenchSpec)
    requires
        is_spec_of(s, p),
    ensures
        is_readable(p),
{
    law_fields_mean_what_is_written(p, s);
    let ops = lemma_read_so(p, s);
    if let (Some(a), Some(b)) = (p.metadata, s.metadata) {
        assert forall|i: int| 0 <= i < a.ops@.len() implies is_op((#[trigger] a.ops@[i])@) by {
            assert(op_name(b.ops@[i]) == a.ops@[i]@);
        }
    }
}

} // verus!
