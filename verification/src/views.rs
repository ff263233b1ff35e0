//! Views of optional values and of collections, and copies that keep them.

use vstd::prelude::*;

use crate::strmap::{keys_of, lemma_new_key, StrMap};
use crate::text;

verus! {

/// A value that can be copied without changing what it holds.
pub trait Duplicate: Sized + View {
    /// A value that holds the same.
    fn copy(&self) -> (r: Self)
        ensures
            r@ == self@,
    ;
}

/// The characters of an optional string.
pub open spec fn opt_text(o: Option<String>) -> Option<Seq<char>> {
    match o {
        Some(s) => Some(s@),
        None => None,
    }
}

/// The view of an optional value.
pub open spec fn opt_view<T: View>(o: Option<T>) -> Option<T::V> {
    match o {
        Some(x) => Some(x@),
        None => None,
    }
}

/// The views of the elements.
pub open spec fn seq_views<T: View>(s: Seq<T>) -> Seq<T::V> {
    s.map_values(|x: T| x@)
}

/// The entries of a map with the views of their values.
pub open spec fn entry_views<T: View>(s: Seq<(Seq<char>, T)>) -> Seq<(Seq<char>, T::V)> {
    s.map_values(|e: (Seq<char>, T)| (e.0, e.1@))
}

/// Copies an optional string.
pub fn copy_opt_text(o: &Option<String>) -> (r: Option<String>)
    ensures
        r == *o,
        opt_text(r) == opt_text(*o),
{
    match o {
        Some(s) => Some(s.clone()),
        None => None,
    }
}

/// Copies an optional value.
pub fn copy_opt<T: Duplicate>(o: &Option<T>) -> (r: Option<T>)
    ensures
        opt_view(r) == opt_view(*o),
{
    match o {
        Some(x) => Some(x.copy()),
        None => None,
    }
}

/// Copies a list.
pub fn copy_vec<T: Duplicate>(v: &Vec<T>) -> (r: Vec<T>)
    ensures
        seq_views(r@) == seq_views(v@),
{
    copy_slice(v.as_slice())
}

/// Copies a slice.
pub fn copy_slice<T: Duplicate>(v: &[T]) -> (r: Vec<T>)
    ensures
        seq_views(r@) == seq_views(v@),
{
    let mut out: Vec<T> = Vec::new();
    let mut i: usize = 0;
    while i < v.len()
        invariant
            i <= v@.len(),
            seq_views(out@) == seq_views(v@.take(i as int)),
        decreases v@.len() - i,
    {
        let ghost before = out@;
        out.push(v[i].copy());
        assert(seq_views(out@) =~= seq_views(before).push(v@[i as int]@));
        assert(seq_views(v@.take(i as int + 1)) =~= seq_views(v@.take(i as int)).push(v@[i as int]@));
        i += 1;
    }
    assert(v@.take(i as int) =~= v@);
    out
}

/// Copies a list of strings.
pub fn copy_texts(v: &Vec<String>) -> (r: Vec<String>)
    ensures
        r@ == v@,
        text::views(r@) == text::views(v@),
{
    let mut out: Vec<String> = Vec::new();
    let mut i: usize = 0;
    while i < v.len()
        invariant
            i <= v@.len(),
            out@ == v@.take(i as int),
        decreases v@.len() - i,
    {
        out.push(v[i].clone());
        assert(out@ =~= v@.take(i as int + 1));
        i += 1;
    }
    assert(v@.take(i as int) =~= v@);
    out
}

/// Copies bytes.
pub fn copy_bytes(v: &Vec<u8>) -> (r: Vec<u8>)
    ensures
        r@ == v@,
{
    let mut out: Vec<u8> = Vec::new();
    let mut i: usize = 0;
    while i < v.len()
        invariant
            i <= v@.len(),
            out@ == v@.take(i as int),
        decreases v@.len() - i,
    {
        out.push(v[i]);
        assert(out@ =~= v@.take(i as int + 1));
        i += 1;
    }
    assert(v@.take(i as int) =~= v@);
    out
}

/// Copies a map.
pub fn copy_map<T: Duplicate>(m: &StrMap<T>) -> (r: StrMap<T>)
    ensures
        entry_views(r.seq()) == entry_views(m.seq()),
{
    let mut out: StrMap<T> = StrMap::new();
    let n: usize = m.len();
    let mut i: usize = 0;
    assert(entry_views(out.seq()) =~= entry_views(m.seq().take(0)));
    while i < n
        invariant
            i <= n,
            n == m.seq().len(),
            crate::strmap::keys_distinct(m.seq()),
            entry_views(out.seq()) == entry_views(m.seq().take(i as int)),
        decreases n - i,
    {
        let key = m.key_at(i).clone();
        let value = m.value_at(i).copy();
        proof {
            assert(keys_of(out.seq()) =~= keys_of(m.seq()).take(i as int)) by {
                assert(entry_views(out.seq()).len() == out.seq().len());
                assert forall|j: int| 0 <= j < i implies out.seq()[j].0 == m.seq()[j].0 by {
                    assert(entry_views(out.seq())[j].0 == entry_views(m.seq().take(i as int))[j].0);
                }
            }
            lemma_new_key(m.seq(), i as int, out.seq());
        }
        let ghost before = out.seq();
        out.insert(key, value);
        proof {
            assert(entry_views(out.seq()) =~= entry_views(before).push((key@, value@)));
            assert(entry_views(m.seq().take(i as int + 1)) =~= entry_views(
                m.seq().take(i as int),
            ).push((key@, value@)));
        }
        i += 1;
    }
    assert(m.seq().take(i as int) =~= m.seq());
    out
}

/// The values of the entries.
pub open spec fn values_of<V>(s: Seq<(Seq<char>, V)>) -> Seq<V> {
    s.map_values(|e: (Seq<char>, V)| e.1)
}

/// Copies the values of a map, in its order.
pub fn copy_map_values<T: Duplicate>(m: &StrMap<T>) -> (r: Vec<T>)
    ensures
        seq_views(r@) == values_of(entry_views(m.seq())),
{
    let mut out: Vec<T> = Vec::new();
    let n: usize = m.len();
    let ghost want = values_of(entry_views(m.seq()));
    let mut i: usize = 0;
    assert(seq_views(out@) =~= want.take(0));
    while i < n
        invariant
            i <= n,
            n == m.seq().len(),
            want == values_of(entry_views(m.seq())),
            seq_views(out@) == want.take(i as int),
        decreases n - i,
    {
        let ghost before = out@;
        let value = m.value_at(i).copy();
        out.push(value);
        proof {
            assert(seq_views(out@) =~= seq_views(before).push(value@));
            assert(want.take(i as int + 1) =~= want.take(i as int).push(value@));
        }
        i += 1;
    }
    assert(want.take(i as int) =~= want);
    out
}

} // verus!
