//! The queue of jobs that wait for workers, the oldest first.

use std::collections::VecDeque;

use vstd::prelude::*;

use crate::text;

verus! {

/// The texts of a queue of strings.
pub open spec fn ids(queue: VecDeque<String>) -> Seq<Seq<char>> {
    text::views(queue@)
}

/// Puts a job at the end.
pub fn push_back(queue: &mut VecDeque<String>, job_id: String)
    ensures
        ids(*final(queue)) == ids(*old(queue)).push(job_id@),
{
    queue.push_back(job_id);
    assert(ids(*queue) =~= ids(*old(queue)).push(job_id@));
}

/// The job at the front.
pub fn peek_front(queue: &VecDeque<String>) -> (r: Option<&String>)
    ensures
        match r {
            Some(id) => ids(*queue).len() > 0 && id@ == ids(*queue)[0],
            None => ids(*queue).len() == 0,
        },
{
    if queue.len() == 0 {
        None
    } else {
        Some(&queue[0])
    }
}

/// Takes the job at the front out, where it is `expected`.
pub fn pop_if_front(queue: &mut VecDeque<String>, expected: &str) -> (r: bool)
    ensures
        r == (ids(*old(queue)).len() > 0 && ids(*old(queue))[0] == expected@),
        ids(*final(queue)) == if r {
            ids(*old(queue)).drop_first()
        } else {
            ids(*old(queue))
        },
{
    let found = match peek_front(queue) {
        Some(id) => text::str_eq(id.as_str(), expected),
        None => false,
    };
    if found {
        let _ = queue.pop_front();
        assert(ids(*queue) =~= ids(*old(queue)).drop_first());
    }
    found
}

/// The first place at which `id` stands; the length where it stands nowhere.
pub open spec fn place_of(ids: Seq<Seq<char>>, id: Seq<char>) -> int
    decreases ids.len(),
{
    if ids.len() == 0 {
        0
    } else if ids[0] == id {
        0
    } else {
        1 + place_of(ids.drop_first(), id)
    }
}

/// `ids` without the first `id` in it.
pub open spec fn without(ids: Seq<Seq<char>>, id: Seq<char>) -> Seq<Seq<char>> {
    let p = place_of(ids, id);
    if p < ids.len() {
        ids.remove(p)
    } else {
        ids
    }
}

/// A place lies in the list, or right behind its end.
proof fn lemma_place(ids: Seq<Seq<char>>, id: Seq<char>)
    ensures
        0 <= place_of(ids, id) <= ids.len(),
        place_of(ids, id) < ids.len() <==> ids.contains(id),
        place_of(ids, id) < ids.len() ==> ids[place_of(ids, id)] == id,
    decreases ids.len(),
{
    if ids.len() > 0 {
        if ids[0] == id {
            assert(ids.contains(id));
        } else {
            let rest = ids.drop_first();
            lemma_place(rest, id);
            if rest.contains(id) {
                let k = choose|k: int| 0 <= k < rest.len() && rest[k] == id;
                assert(ids[k + 1] == id);
            }
            if ids.contains(id) {
                let k = choose|k: int| 0 <= k < ids.len() && ids[k] == id;
                assert(rest[k - 1] == id);
            }
        }
    }
}

/// Takes a job out, wherever it stands; the result says whether it was there.
pub fn remove(queue: &mut VecDeque<String>, job_id: &str) -> (r: bool)
    ensures
        r == ids(*old(queue)).contains(job_id@),
        ids(*final(queue)) == without(ids(*old(queue)), job_id@),
{
    let ghost all = ids(*queue);
    let mut i: usize = 0;
    assert(all.skip(0) =~= all);
    while i < queue.len()
        invariant
            i <= queue@.len(),
            *queue == *old(queue),
            all == ids(*queue),
            place_of(all, job_id@) == i + place_of(all.skip(i as int), job_id@),
        decreases queue@.len() - i,
    {
        assert(all.skip(i as int)[0] == queue@[i as int]@);
        assert(all.skip(i as int).drop_first() =~= all.skip(i as int + 1));
        if text::str_eq(queue[i].as_str(), job_id) {
            proof {
                lemma_place(all, job_id@);
            }
            let _ = queue.remove(i);
            assert(ids(*queue) =~= all.remove(i as int));
            return true;
        }
        i += 1;
    }
    proof {
        lemma_place(all, job_id@);
    }
    false
}

/// Without a job the queue still holds the others.
pub proof fn law_removal_keeps_the_others(ids: Seq<Seq<char>>, id: Seq<char>, other: Seq<char>)
    requires
        ids.contains(other),
        other != id,
    ensures
        without(ids, id).contains(other),
{
    lemma_place(ids, id);
    let p = place_of(ids, id);
    let k = choose|k: int| 0 <= k < ids.len() && ids[k] == other;
    if p < ids.len() {
        if k < p {
            assert(without(ids, id)[k] == other);
        } else {
            assert(without(ids, id)[k - 1] == other);
        }
    }
}

} // verus!
