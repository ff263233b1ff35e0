//! The order of texts, and maps read in the order of their keys.

use vstd::prelude::*;

use crate::strmap::{keys_of, StrMap};
use crate::text::chars_of;
use crate::views::entry_views;

verus! {

/// Whether `a` comes no later than `b`: by the first character in which they
/// differ, the shorter first where one starts with the other.
pub open spec fn text_le(a: Seq<char>, b: Seq<char>) -> bool
    decreases a.len(),
{
    if a.len() == 0 {
        true
    } else if b.len() == 0 {
        false
    } else if a[0] == b[0] {
        text_le(a.drop_first(), b.drop_first())
    } else {
        a[0] < b[0]
    }
}

/// Whether `a` comes no later than `b`.
pub fn at_most(a: &str, b: &str) -> (r: bool)
    ensures
        r == text_le(a@, b@),
{
    let x = chars_of(a);
    let y = chars_of(b);
    let mut i: usize = 0;
    assert(x@.skip(0) =~= a@);
    assert(y@.skip(0) =~= b@);
    while i < x.len() && i < y.len()
        invariant
            x@ == a@,
            y@ == b@,
            i <= x@.len(),
            i <= y@.len(),
            text_le(a@, b@) == text_le(x@.skip(i as int), y@.skip(i as int)),
        decreases x@.len() - i,
    {
        if x[i] != y[i] {
            return x[i] < y[i];
        }
        assert(x@.skip(i as int).drop_first() =~= x@.skip(i as int + 1));
        assert(y@.skip(i as int).drop_first() =~= y@.skip(i as int + 1));
        i += 1;
    }
    i == x.len()
}

/// Of two texts one comes no later than the other.
pub proof fn lemma_total(a: Seq<char>, b: Seq<char>)
    ensures
        text_le(a, b) || text_le(b, a),
    decreases a.len(),
{
    if a.len() > 0 && b.len() > 0 && a[0] == b[0] {
        lemma_total(a.drop_first(), b.drop_first());
    }
}

/// What comes no later than a second text comes no later than what follows
/// that one.
pub proof fn lemma_transitive(a: Seq<char>, b: Seq<char>, c: Seq<char>)
    requires
        text_le(a, b),
        text_le(b, c),
    ensures
        text_le(a, c),
    decreases a.len(),
{
    if a.len() > 0 && b.len() > 0 && c.len() > 0 && a[0] == b[0] && b[0] == c[0] {
        lemma_transitive(a.drop_first(), b.drop_first(), c.drop_first());
    }
}

/// Where `k` goes among the keys that `order` lists: behind the last that
/// comes no later.
pub open spec fn slot(keys: Seq<Seq<char>>, order: Seq<int>, k: Seq<char>) -> int
    decreases order.len(),
{
    if order.len() == 0 {
        0
    } else if text_le(keys[order.last()], k) {
        order.len() as int
    } else {
        slot(keys, order.drop_last(), k)
    }
}

/// The positions of the keys, in the order of the keys.
pub open spec fn sorted_order(keys: Seq<Seq<char>>) -> Seq<int>
    decreases keys.len(),
{
    if keys.len() == 0 {
        Seq::empty()
    } else {
        let before = sorted_order(keys.drop_last());
        before.insert(slot(keys, before, keys.last()), keys.len() - 1)
    }
}

/// The entries in the order of their keys.
pub open spec fn in_order<V>(s: Seq<(Seq<char>, V)>) -> Seq<(Seq<char>, V)> {
    Seq::new(s.len(), |i: int| s[sorted_order(keys_of(s))[i]])
}

proof fn lemma_slot(keys: Seq<Seq<char>>, order: Seq<int>, k: Seq<char>)
    ensures
        0 <= slot(keys, order, k) <= order.len(),
    decreases order.len(),
{
    if order.len() > 0 && !text_le(keys[order.last()], k) {
        lemma_slot(keys, order.drop_last(), k);
    }
}

/// The order lists each position once.
pub proof fn lemma_sorted_order(keys: Seq<Seq<char>>)
    ensures
        sorted_order(keys).len() == keys.len(),
        forall|i: int| 0 <= i < keys.len() ==> 0 <= #[trigger] sorted_order(keys)[i] < keys.len(),
        forall|p: int| 0 <= p < keys.len() ==> #[trigger] sorted_order(keys).contains(p),
        sorted_order(keys).no_duplicates(),
    decreases keys.len(),
{
    if keys.len() > 0 {
        let before = sorted_order(keys.drop_last());
        lemma_sorted_order(keys.drop_last());
        let at = slot(keys, before, keys.last());
        lemma_slot(keys, before, keys.last());
        let order = sorted_order(keys);
        assert forall|i: int| 0 <= i < keys.len() implies 0 <= #[trigger] order[i] < keys.len() by {
            if i < at {
                assert(order[i] == before[i]);
            } else if i > at {
                assert(order[i] == before[i - 1]);
            }
        }
        assert forall|p: int| 0 <= p < keys.len() implies #[trigger] order.contains(p) by {
            if p == keys.len() - 1 {
                assert(order[at] == p);
            } else {
                assert(before.contains(p));
                let i = choose|i: int| 0 <= i < before.len() && before[i] == p;
                if i < at {
                    assert(order[i] == p);
                } else {
                    assert(order[i + 1] == p);
                }
            }
        }
        assert forall|i: int, j: int|
            0 <= i < order.len() && 0 <= j < order.len() && i != j implies order[i] != order[j] by {
            let x = if i < at { before[i] } else { before[i - 1] };
            let y = if j < at { before[j] } else { before[j - 1] };
            assert(i != at ==> order[i] == x);
            assert(j != at ==> order[j] == y);
        }
    }
}

/// In the order of their keys, entries come as their keys do.
pub proof fn law_in_order_is_sorted<V>(s: Seq<(Seq<char>, V)>)
    ensures
        in_order(s).len() == s.len(),
        forall|i: int, j: int| #![auto]
            0 <= i <= j < s.len() ==> text_le(in_order(s)[i].0, in_order(s)[j].0),
        forall|p: int| 0 <= p < s.len() ==> in_order(s).contains(#[trigger] s[p]),
{
    let keys = keys_of(s);
    let order = sorted_order(keys);
    lemma_sorted_order(keys);
    lemma_ascending(keys);
    assert forall|i: int, j: int| #![auto] 0 <= i <= j < s.len() implies text_le(
        in_order(s)[i].0,
        in_order(s)[j].0,
    ) by {
        assert(keys[order[i]] == in_order(s)[i].0);
        assert(keys[order[j]] == in_order(s)[j].0);
    }
    assert forall|p: int| 0 <= p < s.len() implies in_order(s).contains(#[trigger] s[p]) by {
        assert(order.contains(p));
        let i = choose|i: int| 0 <= i < order.len() && order[i] == p;
        assert(in_order(s)[i] == s[p]);
    }
}

proof fn lemma_ascending(keys: Seq<Seq<char>>)
    ensures
        forall|i: int, j: int| #![auto]
            0 <= i <= j < keys.len() ==> text_le(
                keys[sorted_order(keys)[i]],
                keys[sorted_order(keys)[j]],
            ),
    decreases keys.len(),
{
    if keys.len() > 0 {
        let head = keys.drop_last();
        let before = sorted_order(head);
        let k = keys.last();
        lemma_ascending(head);
        lemma_sorted_order(head);
        lemma_sorted_order(keys);
        lemma_slot(keys, before, k);
        let at = slot(keys, before, k);
        lemma_slot_parts(keys, before, k);
        let order = sorted_order(keys);
        assert forall|i: int| 0 <= i < before.len() implies keys[#[trigger] before[i]]
            == head[before[i]] by {}
        assert forall|i: int, j: int| #![auto] 0 <= i <= j < keys.len() implies text_le(
            keys[order[i]],
            keys[order[j]],
        ) by {
            lemma_total(k, k);
            if i < at {
                assert(order[i] == before[i]);
            } else if i > at {
                assert(order[i] == before[i - 1]);
            }
            if j < at {
                assert(order[j] == before[j]);
            } else if j > at {
                assert(order[j] == before[j - 1]);
            }
            if i < at && j == at {
                assert(text_le(head[before[i]], head[before[at - 1]]));
                lemma_transitive(keys[before[i]], keys[before[at - 1]], k);
            } else if i == at && j > at {
                assert(!text_le(keys[before[j - 1]], k));
                lemma_total(keys[before[j - 1]], k);
            } else if i != at && j != at {
                let x = if i < at { i } else { i - 1 };
                let y = if j < at { j } else { j - 1 };
                assert(text_le(head[before[x]], head[before[y]]));
            }
        }
    }
}

/// What stands just before the place comes no later than `k`; what stands
/// behind it comes later.
proof fn lemma_slot_parts(keys: Seq<Seq<char>>, order: Seq<int>, k: Seq<char>)
    ensures
        slot(keys, order, k) > 0 ==> text_le(keys[order[slot(keys, order, k) - 1]], k),
        forall|i: int| slot(keys, order, k) <= i < order.len() ==> !text_le(
            keys[#[trigger] order[i]],
            k,
        ),
    decreases order.len(),
{
    lemma_slot(keys, order, k);
    if order.len() > 0 && !text_le(keys[order.last()], k) {
        let head = order.drop_last();
        lemma_slot(keys, head, k);
        lemma_slot_parts(keys, head, k);
        assert forall|i: int| slot(keys, order, k) <= i < order.len() implies !text_le(
            keys[#[trigger] order[i]],
            k,
        ) by {
            if i < head.len() {
                assert(head[i] == order[i]);
            }
        }
    }
}

/// Entries and what they hold come in the same order.
pub proof fn lemma_viewed_order<V: View>(s: Seq<(Seq<char>, V)>)
    ensures
        in_order(entry_views(s)) == entry_views(in_order(s)),
{
    lemma_sorted_order(keys_of(s));
    assert(keys_of(entry_views(s)) =~= keys_of(s));
    assert(in_order(entry_views(s)) =~= entry_views(in_order(s)));
}

/// The positions that a vector lists.
pub open spec fn ints(v: Seq<usize>) -> Seq<int> {
    v.map_values(|x: usize| x as int)
}

/// The positions of the entries of `m`, in the order of their keys.
pub fn order_of<V>(m: &StrMap<V>) -> (r: Vec<usize>)
    ensures
        ints(r@) == sorted_order(keys_of(m.seq())),
        r@.len() == m.seq().len(),
        forall|i: int| 0 <= i < r@.len() ==> (#[trigger] r@[i]) < m.seq().len(),
        forall|i: int| 0 <= i < r@.len() ==> m.seq()[#[trigger] r@[i] as int] == in_order(m.seq())[i],
{
    let n: usize = m.len();
    let ghost keys = keys_of(m.seq());
    let mut order: Vec<usize> = Vec::new();
    let mut i: usize = 0;
    assert(keys.take(0) =~= Seq::<Seq<char>>::empty());
    assert(ints(order@) =~= Seq::<int>::empty());
    while i < n
        invariant
            i <= n,
            n == m.seq().len(),
            keys == keys_of(m.seq()),
            order@.len() == i,
            ints(order@) == sorted_order(keys.take(i as int)),
        decreases n - i,
    {
        let key = m.key_at(i);
        let ghost seen = keys.take(i as int);
        let ghost next = keys.take(i as int + 1);
        let ghost before = ints(order@);
        proof {
            lemma_sorted_order(seen);
            assert(next.drop_last() =~= seen);
            assert(next.last() == key@);
            assert(before.take(before.len() as int) =~= before);
        }
        let mut at: usize = i;
        while at > 0 && !at_most(m.key_at(order[at - 1]).as_str(), key.as_str())
            invariant
                at <= i,
                i < n,
                n == m.seq().len(),
                keys == keys_of(m.seq()),
                key@ == keys[i as int],
                order@.len() == i,
                before == ints(order@),
                next == keys.take(i as int + 1),
                forall|j: int| 0 <= j < i ==> 0 <= #[trigger] before[j] < i,
                slot(next, before, key@) == slot(next, before.take(at as int), key@),
            decreases at,
        {
            assert(before[at - 1] == order@[at - 1]);
            assert(next[before[at - 1]] == keys[before[at - 1]]);
            assert(before.take(at as int).last() == before[at - 1]);
            assert(before.take(at as int).drop_last() =~= before.take(at as int - 1));
            at -= 1;
        }
        proof {
            if at > 0 {
                assert(before[at - 1] == order@[at - 1]);
                assert(next[before[at - 1]] == keys[before[at - 1]]);
                assert(before.take(at as int).last() == before[at - 1]);
            }
        }
        order.insert(at, i);
        assert(ints(order@) =~= before.insert(at as int, i as int));
        i += 1;
    }
    proof {
        assert(keys.take(i as int) =~= keys);
        lemma_sorted_order(keys);
        assert forall|j: int| 0 <= j < order@.len() implies (#[trigger] order@[j]) < m.seq().len() by {
            assert(ints(order@)[j] == order@[j]);
        }
        assert forall|j: int| 0 <= j < order@.len() implies m.seq()[#[trigger] order@[j] as int]
            == in_order(m.seq())[j] by {
            assert(ints(order@)[j] == order@[j]);
        }
    }
    order
}

/// Of two texts that begin alike, the first character in which they differ says
/// which comes first; and what a text begins with comes before it.
pub proof fn law_first_difference_decides(
    start: Seq<char>,
    x: char,
    y: char,
    a: Seq<char>,
    b: Seq<char>,
)
    requires
        x < y,
    ensures
        text_le(start + seq![x] + a, start + seq![y] + b),
        !text_le(start + seq![y] + b, start + seq![x] + a),
        text_le(start, start + a),
        a.len() > 0 ==> !text_le(start + a, start),
    decreases start.len(),
{
    let p = start + seq![x] + a;
    let q = start + seq![y] + b;
    let r = start + a;
    if start.len() > 0 {
        let rest = start.drop_first();
        law_first_difference_decides(rest, x, y, a, b);
        assert(p.drop_first() =~= rest + seq![x] + a);
        assert(q.drop_first() =~= rest + seq![y] + b);
        assert(r.drop_first() =~= rest + a);
        assert(p[0] == start[0] && q[0] == start[0] && r[0] == start[0]);
    } else {
        assert(p[0] == x && q[0] == y);
    }
}

} // verus!
