//! Workers set free from a job.

use vstd::prelude::*;

use crate::strmap::{del, lemma_viewed_del, lemma_viewed_keys, lookup, StrMap};
use crate::text;
use crate::views::entry_views;

verus! {

/// `active` without the entry of a worker, where it works on the job.
pub open spec fn freed(
    active: Seq<(Seq<char>, Seq<char>)>,
    worker: Seq<char>,
    job_id: Seq<char>,
) -> Seq<(Seq<char>, Seq<char>)> {
    if lookup(active, worker) == Some(job_id) {
        del(active, worker)
    } else {
        active
    }
}

/// `active` without the entries of those of `workers` that work on the job.
pub open spec fn released(
    active: Seq<(Seq<char>, Seq<char>)>,
    workers: Seq<Seq<char>>,
    job_id: Seq<char>,
) -> Seq<(Seq<char>, Seq<char>)>
    decreases workers.len(),
{
    if workers.len() == 0 {
        active
    } else {
        freed(released(active, workers.drop_last(), job_id), workers.last(), job_id)
    }
}

/// Sets a worker free, where it works on the job.
pub fn free_worker(active: &mut StrMap<String>, worker: &str, job_id: &str)
    ensures
        entry_views(final(active).seq()) == freed(entry_views(old(active).seq()), worker@, job_id@),
{
    let _ = active.len();
    proof {
        lemma_viewed_keys(active.seq(), worker@);
        lemma_viewed_del(active.seq(), worker@);
    }
    let bound = match active.get(worker) {
        Some(id) => text::str_eq(id.as_str(), job_id),
        None => false,
    };
    if bound {
        let _ = active.remove(worker);
    }
}

/// Sets those of `workers` free that work on the job.
pub fn release(active: &mut StrMap<String>, workers: &Vec<String>, job_id: &str)
    ensures
        entry_views(final(active).seq()) == released(
            entry_views(old(active).seq()),
            text::views(workers@),
            job_id@,
        ),
{
    let ghost start = entry_views(active.seq());
    let ghost v = text::views(workers@);
    let mut i: usize = 0;
    while i < workers.len()
        invariant
            i <= workers@.len(),
            v == text::views(workers@),
            entry_views(active.seq()) == released(start, v.take(i as int), job_id@),
        decreases workers@.len() - i,
    {
        assert(v.take(i as int + 1).drop_last() =~= v.take(i as int));
        assert(v.take(i as int + 1).last() == workers@[i as int]@);
        free_worker(active, workers[i].as_str(), job_id);
        i += 1;
    }
    assert(v.take(i as int) =~= v);
}

} // verus!
