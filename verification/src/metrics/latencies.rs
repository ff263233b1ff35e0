//! The latencies that the results of a job show: those of all workers that
//! succeeded, each counted once.

use vstd::prelude::*;

use crate::metrics::aggregate::{
    contributors, merge_all, merge_ops, merge_workers, merged_under, rate_window, report_of,
    reports_of, summary_of, window_of, with_report, MergedView,
};
use crate::metrics::histogram::{
    decoded, encodable, encoding_of, is_common, reads_back, HistogramView,
};
use crate::pb::{Number, PerformanceMetricsView, WorkerResultView};
use crate::strmap::{
    has_key, keys_distinct, keys_of, lemma_entry, lemma_put_facts, lookup, position, put,
};

verus! {

/// What a worker tells of an operation, and whether the worker succeeded.
pub struct Told {
    pub op: Seq<char>,
    pub report: PerformanceMetricsView,
    pub success: bool,
}

/// What a worker tells of its operations.
pub open spec fn told_by(w: WorkerResultView) -> Seq<Told> {
    Seq::new(
        w.per_op.len(),
        |k: int| Told { op: w.per_op[k].0, report: w.per_op[k].1, success: w.success },
    )
}

/// What all workers tell of their operations.
pub open spec fn told_by_all(workers: Seq<WorkerResultView>) -> Seq<Told>
    decreases workers.len(),
{
    if workers.len() == 0 {
        Seq::empty()
    } else {
        told_by_all(workers.drop_last()) + told_by(workers.last())
    }
}

/// The histogram that counts: that of a worker that succeeded, where it can be
/// decoded.
pub open spec fn brought(t: Told) -> Option<HistogramView> {
    if t.success && t.report.latency_histogram_hdr.len() > 0 {
        match decoded(t.report.latency_histogram_hdr) {
            Ok(h) => Some(h),
            Err(_) => None,
        }
    } else {
        None
    }
}

/// Whether something is told of the operation `op`, or of any where none is
/// named.
pub open spec fn is_on(t: Told, op: Option<Seq<char>>) -> bool {
    op matches Some(k) ==> t.op == k
}

/// Whether a histogram for `op` comes with the `n`th of what is told.
pub open spec fn brings(told: Seq<Told>, op: Option<Seq<char>>, n: int) -> bool {
    0 <= n < told.len() && is_on(told[n], op) && brought(told[n]) is Some
}

/// How many latencies the slot `i` of a histogram holds.
pub open spec fn count_at(h: Option<HistogramView>, i: int) -> int {
    match h {
        Some(v) => v.counts[i] as int,
        None => 0,
    }
}

/// How many latencies of `op` fall into the slot `i`, over all that is told.
pub open spec fn in_slot(told: Seq<Told>, op: Option<Seq<char>>, i: int) -> int
    decreases told.len(),
{
    if told.len() == 0 {
        0
    } else {
        in_slot(told.drop_last(), op, i) + if is_on(told.last(), op) {
            count_at(brought(told.last()), i)
        } else {
            0
        }
    }
}

/// Whether all histograms can be put together without loss: they have one shape,
/// which is a common one, as many slots, and no slot overflows.
pub open spec fn can_be_merged(told: Seq<Told>, shape: Seq<u64>, slots: nat) -> bool {
    &&& is_common(shape)
    &&& forall|n: int|
        0 <= n < told.len() ==> (brought(#[trigger] told[n]) matches Some(h) ==> h.shape == shape
            && h.counts.len() == slots)
    &&& forall|i: int| 0 <= i < slots ==> #[trigger] in_slot(told, None, i) <= u64::MAX
}

/// Whether `m` is the largest maximum of the histograms for `op`.
pub open spec fn is_largest(m: u64, told: Seq<Told>, op: Option<Seq<char>>) -> bool {
    &&& exists|n: int| #[trigger] brings(told, op, n) && brought(told[n])->Some_0.maximum == m
    &&& forall|n: int| #[trigger]
        brings(told, op, n) ==> brought(told[n])->Some_0.maximum <= m
}

/// Whether a slot counts a latency of `op`.
pub open spec fn any_latency(told: Seq<Told>, op: Option<Seq<char>>, slots: nat) -> bool {
    exists|i: int| 0 <= i < slots && #[trigger] in_slot(told, op, i) > 0
}

/// Whether `p` shows the latencies of `op`, slot by slot the sum of those in all
/// histograms, and the largest of their maxima; nothing, where no histogram was
/// brought.
pub open spec fn shows(
    p: PerformanceMetricsView,
    told: Seq<Told>,
    op: Option<Seq<char>>,
    shape: Seq<u64>,
    slots: nat,
) -> bool {
    &&& p.latency_us matches Some(l) && if any_latency(told, op, slots) {
        exists|m: u64| #[trigger]
            is_largest(m, told, op) && l.max == (Number::Ratio { num: m as i128, den: 1 })
    } else {
        l.max == (Number::Float { bits: 0 })
    }
    &&& (exists|n: int| #[trigger] brings(told, op, n)) && (forall|i: int|
        0 <= i < slots ==> #[trigger] in_slot(told, op, i) <= i64::MAX)
        ==> p.latency_histogram_hdr == encoding_of(
        shape,
        Seq::new(slots, |i: int| in_slot(told, op, i) as u64),
    )
    &&& (forall|n: int| !#[trigger] brings(told, op, n)) ==> p.latency_histogram_hdr.len() == 0
}

/// Whether the histogram that stands in `p` can be read, and holds the latencies
/// of `op`, slot by slot the sum of those in all histograms.
pub open spec fn can_be_read(
    p: PerformanceMetricsView,
    told: Seq<Told>,
    op: Option<Seq<char>>,
    shape: Seq<u64>,
    slots: nat,
) -> bool {
    (exists|n: int| #[trigger] brings(told, op, n)) && (forall|i: int|
        0 <= i < slots ==> #[trigger] in_slot(told, op, i) <= i64::MAX) ==> {
        &&& decoded(p.latency_histogram_hdr) matches Ok(d) && d.shape == shape && d.counts.len()
            == slots && forall|i: int|
            0 <= i < slots ==> #[trigger] d.counts[i] == in_slot(told, op, i)
    }
}

/// What was told so far, merged by operation.
spec fn folded(told: Seq<Told>) -> Seq<(Seq<char>, MergedView)>
    decreases told.len(),
{
    if told.len() == 0 {
        Seq::empty()
    } else {
        let before = folded(told.drop_last());
        let t = told.last();
        put(before, t.op, with_report(merged_under(before, t.op), t.report, t.success))
    }
}

proof fn lemma_folded_ops(
    told: Seq<Told>,
    ops: Seq<(Seq<char>, PerformanceMetricsView)>,
    success: bool,
)
    ensures
        merge_ops(folded(told), ops, success) == folded(
            told + Seq::new(
                ops.len(),
                |k: int| Told { op: ops[k].0, report: ops[k].1, success },
            ),
        ),
    decreases ops.len(),
{
    let all = told + Seq::new(
        ops.len(),
        |k: int| Told { op: ops[k].0, report: ops[k].1, success },
    );
    if ops.len() == 0 {
        assert(all =~= told);
    } else {
        let head = ops.drop_last();
        lemma_folded_ops(told, head, success);
        assert(all.drop_last() =~= told + Seq::new(
            head.len(),
            |k: int| Told { op: head[k].0, report: head[k].1, success },
        ));
    }
}

proof fn lemma_folded(workers: Seq<WorkerResultView>)
    ensures
        merge_workers(workers) == folded(told_by_all(workers)),
    decreases workers.len(),
{
    if workers.len() > 0 {
        let w = workers.last();
        let before = told_by_all(workers.drop_last());
        lemma_folded(workers.drop_last());
        lemma_folded_ops(before, w.per_op, w.success);
        assert(told_by_all(workers) =~= before + Seq::new(
            w.per_op.len(),
            |k: int| Told { op: w.per_op[k].0, report: w.per_op[k].1, success: w.success },
        ));
    }
}

/// Whether a histogram holds the latencies of `op`.
spec fn sums(
    own: Option<HistogramView>,
    told: Seq<Told>,
    op: Option<Seq<char>>,
    shape: Seq<u64>,
    slots: nat,
) -> bool {
    match own {
        None => forall|n: int| !#[trigger] brings(told, op, n),
        Some(h) => {
            &&& h.shape == shape && h.counts.len() == slots
            &&& forall|i: int| 0 <= i < slots ==> #[trigger] h.counts[i] == in_slot(told, op, i)
            &&& is_largest(h.maximum, told, op)
        },
    }
}

proof fn lemma_counts_positive(told: Seq<Told>, op: Option<Seq<char>>, i: int)
    ensures
        0 <= in_slot(told, op, i) <= in_slot(told, None, i),
        (forall|n: int| !#[trigger] brings(told, op, n)) ==> in_slot(told, op, i) == 0,
    decreases told.len(),
{
    if told.len() > 0 {
        let head = told.drop_last();
        lemma_counts_positive(head, op, i);
        if forall|n: int| !#[trigger] brings(told, op, n) {
            assert forall|n: int| !#[trigger] brings(head, op, n) by {
                assert(!brings(told, op, n));
            }
            assert(!brings(told, op, told.len() - 1));
        }
    }
}

proof fn lemma_head(told: Seq<Told>, shape: Seq<u64>, slots: nat)
    requires
        can_be_merged(told, shape, slots),
        told.len() > 0,
    ensures
        can_be_merged(told.drop_last(), shape, slots),
{
    let head = told.drop_last();
    assert forall|n: int| 0 <= n < head.len() implies (brought(#[trigger] head[n]) matches Some(h)
        ==> h.shape == shape && h.counts.len() == slots) by {
        assert(head[n] == told[n]);
    }
    assert forall|i: int| 0 <= i < slots implies #[trigger] in_slot(head, None, i) <= u64::MAX by {
        assert(in_slot(told, None, i) <= u64::MAX);
    }
}

/// One more report is added to what it is on, and to nothing else.
proof fn lemma_one_more(
    m: MergedView,
    told: Seq<Told>,
    op: Option<Seq<char>>,
    shape: Seq<u64>,
    slots: nat,
)
    requires
        told.len() > 0,
        can_be_merged(told, shape, slots),
        sums(m.histogram, told.drop_last(), op, shape, slots),
    ensures
        sums(
            if is_on(told.last(), op) {
                with_report(m, told.last().report, told.last().success).histogram
            } else {
                m.histogram
            },
            told,
            op,
            shape,
            slots,
        ),
{
    let head = told.drop_last();
    let t = told.last();
    let last = told.len() - 1;
    let now = if is_on(t, op) {
        with_report(m, t.report, t.success).histogram
    } else {
        m.histogram
    };
    assert(told[last] == t);
    assert(brings(told, op, last) == (is_on(t, op) && brought(t) is Some));
    assert forall|n: int| 0 <= n < last implies #[trigger] brings(told, op, n) == brings(
        head,
        op,
        n,
    ) && told[n] == head[n] by {}
    assert forall|i: int| 0 <= i < slots implies #[trigger] in_slot(told, op, i) <= u64::MAX by {
        lemma_counts_positive(told, op, i);
        assert(in_slot(told, None, i) <= u64::MAX);
    }
    if let Some(h) = m.histogram {
        let k = choose|n: int| #[trigger]
            brings(head, op, n) && brought(head[n])->Some_0.maximum == h.maximum;
        assert(brings(told, op, k));
        assert forall|n: int| #[trigger] brings(told, op, n) && n != last implies brought(
            told[n],
        )->Some_0.maximum <= h.maximum by {
            assert(brings(head, op, n));
        }
    }
    if is_on(t, op) && brought(t) is Some {
        let x = brought(t)->Some_0;
        assert(brings(told, op, last));
        match m.histogram {
            None => {
                assert forall|i: int| 0 <= i < slots implies #[trigger] x.counts[i] == in_slot(
                    told,
                    op,
                    i,
                ) by {
                    lemma_counts_positive(head, op, i);
                }
                assert(now == Some(x));
            },
            Some(h) => {
                let y = now->Some_0;
                assert forall|i: int| 0 <= i < slots implies #[trigger] y.counts[i] == in_slot(
                    told,
                    op,
                    i,
                ) by {
                    assert(h.counts[i] == in_slot(head, op, i));
                    assert(in_slot(told, op, i) <= u64::MAX);
                }
            },
        }
    } else {
        assert(now == m.histogram);
        if let Some(h) = m.histogram {
            assert forall|i: int| 0 <= i < slots implies #[trigger] h.counts[i] == in_slot(
                told,
                op,
                i,
            ) by {
                assert(h.counts[i] == in_slot(head, op, i));
            }
        } else {
            assert forall|n: int| !#[trigger] brings(told, op, n) by {
                if brings(told, op, n) {
                    assert(n < last);
                    assert(brings(head, op, n));
                }
            }
        }
    }
}

/// How many latencies the slot `i` holds over all operations.
spec fn over_ops(acc: Seq<(Seq<char>, MergedView)>, i: int) -> int
    decreases acc.len(),
{
    if acc.len() == 0 {
        0
    } else {
        over_ops(acc.drop_last(), i) + count_at(acc.last().1.histogram, i)
    }
}

proof fn lemma_over_update(
    acc: Seq<(Seq<char>, MergedView)>,
    n: int,
    e: (Seq<char>, MergedView),
    i: int,
)
    requires
        0 <= n < acc.len(),
    ensures
        over_ops(acc.update(n, e), i) == over_ops(acc, i) - count_at(acc[n].1.histogram, i)
            + count_at(e.1.histogram, i),
    decreases acc.len(),
{
    let t = acc.update(n, e);
    if n == acc.len() - 1 {
        assert(t.drop_last() =~= acc.drop_last());
    } else {
        assert(t.drop_last() =~= acc.drop_last().update(n, e));
        lemma_over_update(acc.drop_last(), n, e, i);
    }
}

/// What was merged under each operation are its latencies, and those of all
/// operations make up all latencies.
proof fn lemma_by_operation(told: Seq<Told>, shape: Seq<u64>, slots: nat)
    requires
        can_be_merged(told, shape, slots),
    ensures
        keys_distinct(folded(told)),
        forall|n: int| 0 <= n < told.len() ==> has_key(folded(told), (#[trigger] told[n]).op),
        forall|k: Seq<char>|
            sums((#[trigger] merged_under(folded(told), k)).histogram, told, Some(k), shape, slots),
        forall|i: int|
            0 <= i < slots ==> #[trigger] over_ops(folded(told), i) == in_slot(told, None, i),
    decreases told.len(),
{
    if told.len() == 0 {
        assert forall|k: Seq<char>| sums(
            (#[trigger] merged_under(folded(told), k)).histogram,
            told,
            Some(k),
            shape,
            slots,
        ) by {
            assert(!has_key(folded(told), k));
        }
    } else {
        let head = told.drop_last();
        let t = told.last();
        let before = folded(head);
        lemma_head(told, shape, slots);
        lemma_by_operation(head, shape, slots);
        let own = merged_under(before, t.op);
        let m = with_report(own, t.report, t.success);
        let next = put(before, t.op, m);
        lemma_put_facts(before, t.op, m);
        assert(sums(own.histogram, head, Some(t.op), shape, slots));
        lemma_one_more(own, told, Some(t.op), shape, slots);
        assert(sums(m.histogram, told, Some(t.op), shape, slots));
        assert forall|n: int| 0 <= n < told.len() implies has_key(
            folded(told),
            (#[trigger] told[n]).op,
        ) by {
            if n < head.len() {
                assert(has_key(before, head[n].op));
            }
            if told[n].op == t.op {
                assert(lookup(next, t.op) == Some(m));
            }
        }
        assert forall|k: Seq<char>| sums(
            (#[trigger] merged_under(folded(told), k)).histogram,
            told,
            Some(k),
            shape,
            slots,
        ) by {
            if k != t.op {
                assert(lookup(next, k) == lookup(before, k));
                assert(sums(merged_under(before, k).histogram, head, Some(k), shape, slots));
                lemma_one_more(merged_under(before, k), told, Some(k), shape, slots);
            }
        }
        assert forall|i: int| 0 <= i < slots implies #[trigger] over_ops(folded(told), i)
            == in_slot(told, None, i) by {
            assert(over_ops(before, i) == in_slot(head, None, i));
            assert(count_at(own.histogram, i) == in_slot(head, Some(t.op), i)) by {
                lemma_counts_positive(head, Some(t.op), i);
            }
            assert(count_at(m.histogram, i) == in_slot(told, Some(t.op), i)) by {
                lemma_counts_positive(told, Some(t.op), i);
            }
            assert(in_slot(told, Some(t.op), i) == in_slot(head, Some(t.op), i) + count_at(
                brought(t),
                i,
            ));
            if has_key(before, t.op) {
                let n = choose|n: int| 0 <= n < before.len() && #[trigger] before[n].0 == t.op;
                lemma_entry(before, n);
                lemma_over_update(before, n, (t.op, m), i);
            } else {
                assert(next.drop_last() =~= before);
                assert(next.last() == (t.op, m));
                assert(own.histogram is None);
            }
        }
    }
}

proof fn lemma_over_positive(acc: Seq<(Seq<char>, MergedView)>, i: int)
    ensures
        over_ops(acc, i) >= 0,
        (forall|n: int| 0 <= n < acc.len() ==> (#[trigger] acc[n]).1.histogram is None) ==> over_ops(
            acc,
            i,
        ) == 0,
    decreases acc.len(),
{
    if acc.len() > 0 {
        let head = acc.drop_last();
        lemma_over_positive(head, i);
        if forall|n: int| 0 <= n < acc.len() ==> (#[trigger] acc[n]).1.histogram is None {
            assert forall|n: int| 0 <= n < head.len() implies (#[trigger] head[n]).1.histogram is None by {
                assert(acc[n].1.histogram is None);
            }
            assert(acc[acc.len() - 1].1.histogram is None);
        }
    }
}

/// All operations together hold the latencies of each.
proof fn lemma_all_operations(acc: Seq<(Seq<char>, MergedView)>, shape: Seq<u64>, slots: nat)
    requires
        is_common(shape),
        forall|n: int|
            0 <= n < acc.len() ==> ((#[trigger] acc[n]).1.histogram matches Some(h) ==> h.shape
                == shape && h.counts.len() == slots),
        forall|i: int| 0 <= i < slots ==> #[trigger] over_ops(acc, i) <= u64::MAX,
    ensures
        match merge_all(acc).histogram {
            None => forall|n: int| 0 <= n < acc.len() ==> (#[trigger] acc[n]).1.histogram is None,
            Some(h) => {
                &&& h.shape == shape && h.counts.len() == slots
                &&& forall|i: int| 0 <= i < slots ==> #[trigger] h.counts[i] == over_ops(acc, i)
                &&& exists|n: int|
                    0 <= n < acc.len() && ((#[trigger] acc[n]).1.histogram matches Some(o)
                        && o.maximum == h.maximum)
                &&& forall|n: int|
                    0 <= n < acc.len() ==> ((#[trigger] acc[n]).1.histogram matches Some(o)
                        ==> o.maximum <= h.maximum)
            },
        },
    decreases acc.len(),
{
    if acc.len() > 0 {
        let head = acc.drop_last();
        let last = acc.len() - 1;
        let e = acc.last().1.histogram;
        assert forall|n: int| 0 <= n < head.len() implies ((#[trigger] head[n]).1.histogram matches Some(
            h,
        ) ==> h.shape == shape && h.counts.len() == slots) by {
            assert(head[n] == acc[n]);
        }
        assert forall|i: int| 0 <= i < slots implies #[trigger] over_ops(head, i) <= u64::MAX by {
            assert(over_ops(acc, i) <= u64::MAX);
        }
        lemma_all_operations(head, shape, slots);
        assert(acc[last].1.histogram == e);
        let own = merge_all(head).histogram;
        let now = merge_all(acc).histogram;
        assert forall|n: int| 0 <= n < head.len() implies acc[n] == #[trigger] head[n] by {}
        match now {
            None => {
                assert forall|n: int| 0 <= n < acc.len() implies (#[trigger] acc[n]).1.histogram is None by {
                    if n < last {
                        assert(head[n].1.histogram is None);
                    }
                }
            },
            Some(h) => {
                assert forall|i: int| 0 <= i < slots implies #[trigger] h.counts[i] == over_ops(
                    acc,
                    i,
                ) by {
                    assert(over_ops(acc, i) <= u64::MAX);
                    lemma_over_positive(head, i);
                    if let Some(o) = own {
                        assert(o.counts[i] == over_ops(head, i));
                    }
                }
                if let Some(o) = own {
                    let n = choose|n: int|
                        0 <= n < head.len() && ((#[trigger] head[n]).1.histogram matches Some(x)
                            && x.maximum == o.maximum);
                    assert(acc[n].1.histogram == head[n].1.histogram);
                }
                assert forall|n: int| 0 <= n < acc.len() implies ((#[trigger] acc[n]).1.histogram matches Some(
                    x,
                ) ==> x.maximum <= h.maximum) by {
                    if n < last {
                        assert(head[n] == acc[n]);
                    }
                }
            },
        }
    }
}

/// All latencies, out of those of the operations.
proof fn lemma_all_latencies(told: Seq<Told>, shape: Seq<u64>, slots: nat)
    requires
        can_be_merged(told, shape, slots),
    ensures
        sums(merge_all(folded(told)).histogram, told, None, shape, slots),
{
    let acc = folded(told);
    lemma_by_operation(told, shape, slots);
    assert forall|n: int| 0 <= n < acc.len() implies sums(
        (#[trigger] acc[n]).1.histogram,
        told,
        Some(acc[n].0),
        shape,
        slots,
    ) by {
        lemma_entry(acc, n);
        assert(merged_under(acc, acc[n].0) == acc[n].1);
    }
    assert forall|i: int| 0 <= i < slots implies #[trigger] over_ops(acc, i) <= u64::MAX by {
        assert(in_slot(told, None, i) <= u64::MAX);
    }
    lemma_all_operations(acc, shape, slots);
    assert forall|n: int| #[trigger] brings(told, None, n) implies exists|j: int|
        0 <= j < acc.len() && ((#[trigger] acc[j]).1.histogram matches Some(h) && brought(
            told[n],
        )->Some_0.maximum <= h.maximum) by {
        let k = told[n].op;
        assert(has_key(acc, k));
        let j = choose|j: int| 0 <= j < acc.len() && #[trigger] acc[j].0 == k;
        assert(brings(told, Some(k), n));
        assert(sums(acc[j].1.histogram, told, Some(acc[j].0), shape, slots));
    }
    match merge_all(acc).histogram {
        None => {
            assert forall|n: int| !#[trigger] brings(told, None, n) by {
                if brings(told, None, n) {
                    let j = choose|j: int|
                        0 <= j < acc.len() && ((#[trigger] acc[j]).1.histogram matches Some(h)
                            && brought(told[n])->Some_0.maximum <= h.maximum);
                    assert(acc[j].1.histogram is None);
                }
            }
        },
        Some(h) => {
            let j = choose|j: int|
                0 <= j < acc.len() && ((#[trigger] acc[j]).1.histogram matches Some(o) && o.maximum
                    == h.maximum);
            assert(sums(acc[j].1.histogram, told, Some(acc[j].0), shape, slots));
            let n = choose|n: int| #[trigger]
                brings(told, Some(acc[j].0), n) && brought(told[n])->Some_0.maximum == h.maximum;
            assert(brings(told, None, n));
            assert forall|i: int| 0 <= i < slots implies #[trigger] h.counts[i] == in_slot(
                told,
                None,
                i,
            ) by {
                assert(over_ops(acc, i) == in_slot(told, None, i));
            }
        },
    }
}

/// A histogram that holds the latencies is reported with them.
proof fn lemma_shown(
    m: MergedView,
    ms: u64,
    told: Seq<Told>,
    op: Option<Seq<char>>,
    shape: Seq<u64>,
    slots: nat,
)
    requires
        sums(m.histogram, told, op, shape, slots),
    ensures
        shows(report_of(m, ms), told, op, shape, slots),
{
    let p = report_of(m, ms);
    match m.histogram {
        None => {
            if any_latency(told, op, slots) {
                let i = choose|i: int| 0 <= i < slots && #[trigger] in_slot(told, op, i) > 0;
                lemma_counts_positive(told, op, i);
            }
        },
        Some(h) => {
            assert(h.counts =~= Seq::new(slots, |i: int| in_slot(told, op, i) as u64)) by {
                assert forall|i: int| 0 <= i < slots implies h.counts[i] == in_slot(
                    told,
                    op,
                    i,
                ) as u64 by {}
            }
            if any_latency(told, op, slots) {
                let i = choose|i: int| 0 <= i < slots && #[trigger] in_slot(told, op, i) > 0;
                assert(h.counts[i] > 0);
                assert(is_largest(h.maximum, told, op));
            } else {
                assert forall|i: int| 0 <= i < h.counts.len() implies #[trigger] h.counts[i] == 0 by {
                    lemma_counts_positive(told, op, i);
                    assert(!(in_slot(told, op, i) > 0));
                }
            }
            let n = choose|n: int| #[trigger]
                brings(told, op, n) && brought(told[n])->Some_0.maximum == h.maximum;
            assert(brings(told, op, n));
            if forall|i: int| 0 <= i < slots ==> #[trigger] in_slot(told, op, i) <= i64::MAX {
                assert forall|i: int| 0 <= i < h.counts.len() implies #[trigger] h.counts[i]
                    <= i64::MAX by {
                    assert(in_slot(told, op, i) <= i64::MAX);
                }
            }
        },
    }
}

/// What is shown of all operations together holds every latency of every
/// operation of every worker that succeeded: slot by slot, the sum of what their
/// histograms hold, and the largest of their maxima.
pub proof fn law_total_holds_all_latencies(
    workers: Seq<WorkerResultView>,
    shape: Seq<u64>,
    slots: nat,
)
    requires
        can_be_merged(told_by_all(workers), shape, slots),
    ensures
        summary_of(workers).aggregated.total matches Some(p) && shows(
            p,
            told_by_all(workers),
            None,
            shape,
            slots,
        ),
{
    lemma_folded(workers);
    let told = told_by_all(workers);
    lemma_all_latencies(told, shape, slots);
    let ms = rate_window(window_of(contributors(workers)).0);
    lemma_shown(merge_all(folded(told)), ms, told, None, shape, slots);
}

/// What is shown of an operation holds every latency of it of every worker that
/// succeeded, and no other.
pub proof fn law_operations_hold_their_latencies(
    workers: Seq<WorkerResultView>,
    op: Seq<char>,
    shape: Seq<u64>,
    slots: nat,
)
    requires
        can_be_merged(told_by_all(workers), shape, slots),
    ensures
        lookup(summary_of(workers).aggregated.total_per_op, op) matches Some(p) ==> shows(
            p,
            told_by_all(workers),
            Some(op),
            shape,
            slots,
        ),
{
    lemma_folded(workers);
    let told = told_by_all(workers);
    lemma_by_operation(told, shape, slots);
    let ms = rate_window(window_of(contributors(workers)).0);
    let acc = folded(told);
    let out = reports_of(acc, ms);
    if has_key(out, op) {
        let n = position(out, op);
        assert(exists|i: int| 0 <= i < out.len() && #[trigger] out[i].0 == op);
        assert(0 <= n < out.len() && out[n].0 == op);
        assert(acc[n].0 == op);
        lemma_entry(acc, n);
        assert(merged_under(acc, op) == acc[n].1);
        lemma_shown(acc[n].1, ms, told, Some(op), shape, slots);
        assert(out[n].1 == report_of(acc[n].1, ms));
    }
}

/// What was read back of all operations together holds every latency.
pub(crate) proof fn lemma_total_can_be_read(
    workers: Seq<WorkerResultView>,
    p: PerformanceMetricsView,
    shape: Seq<u64>,
    slots: nat,
)
    requires
        can_be_merged(told_by_all(workers), shape, slots),
        merge_all(merge_workers(workers)).histogram matches Some(h) ==> encodable(h.counts)
            ==> reads_back(p.latency_histogram_hdr, h),
    ensures
        can_be_read(p, told_by_all(workers), None, shape, slots),
{
    lemma_folded(workers);
    let told = told_by_all(workers);
    lemma_all_latencies(told, shape, slots);
    if (exists|n: int| #[trigger] brings(told, None, n)) && (forall|i: int|
        0 <= i < slots ==> #[trigger] in_slot(told, None, i) <= i64::MAX) {
        let h = merge_all(merge_workers(workers)).histogram->Some_0;
        assert forall|i: int| 0 <= i < h.counts.len() implies #[trigger] h.counts[i]
            <= i64::MAX by {
            assert(in_slot(told, None, i) <= i64::MAX);
        }
    }
}

/// How many latencies fall into the slot `i`, over the operations with the names
/// `ops`.
pub open spec fn over_names(told: Seq<Told>, ops: Seq<Seq<char>>, i: int) -> int
    decreases ops.len(),
{
    if ops.len() == 0 {
        0
    } else {
        over_names(told, ops.drop_last(), i) + in_slot(told, Some(ops.last()), i)
    }
}

proof fn lemma_over_names(
    acc: Seq<(Seq<char>, MergedView)>,
    told: Seq<Told>,
    shape: Seq<u64>,
    slots: nat,
    i: int,
)
    requires
        0 <= i < slots,
        forall|n: int|
            0 <= n < acc.len() ==> sums(
                (#[trigger] acc[n]).1.histogram,
                told,
                Some(acc[n].0),
                shape,
                slots,
            ),
    ensures
        over_names(told, keys_of(acc), i) == over_ops(acc, i),
    decreases acc.len(),
{
    if acc.len() > 0 {
        let head = acc.drop_last();
        assert(keys_of(acc).drop_last() =~= keys_of(head));
        assert forall|n: int| 0 <= n < head.len() implies sums(
            (#[trigger] head[n]).1.histogram,
            told,
            Some(head[n].0),
            shape,
            slots,
        ) by {
            assert(head[n] == acc[n]);
        }
        lemma_over_names(head, told, shape, slots, i);
        let e = acc[acc.len() - 1];
        assert(sums(e.1.histogram, told, Some(e.0), shape, slots));
        lemma_counts_positive(told, Some(e.0), i);
    }
}

/// Slot by slot, the latencies of all operations together are the sum of those of
/// the operations that are reported.
pub proof fn law_operations_make_up_the_total(
    workers: Seq<WorkerResultView>,
    shape: Seq<u64>,
    slots: nat,
    i: int,
)
    requires
        can_be_merged(told_by_all(workers), shape, slots),
        0 <= i < slots,
    ensures
        in_slot(told_by_all(workers), None, i) == over_names(
            told_by_all(workers),
            keys_of(summary_of(workers).aggregated.total_per_op),
            i,
        ),
{
    lemma_folded(workers);
    let told = told_by_all(workers);
    let acc = folded(told);
    lemma_by_operation(told, shape, slots);
    assert forall|n: int| 0 <= n < acc.len() implies sums(
        (#[trigger] acc[n]).1.histogram,
        told,
        Some(acc[n].0),
        shape,
        slots,
    ) by {
        lemma_entry(acc, n);
        assert(merged_under(acc, acc[n].0) == acc[n].1);
    }
    lemma_over_names(acc, told, shape, slots, i);
    let ms = rate_window(window_of(contributors(workers)).0);
    assert(keys_of(reports_of(acc, ms)) =~= keys_of(acc));
    assert(over_ops(acc, i) == in_slot(told, None, i));
}

} // verus!
