use vstd::prelude::*;

use crate::job::names_of;
use crate::run::RunState;

verus! {

/// How many job ids one delete request carries at most.
pub const DELETE_BATCH: usize = 4096;

/// `s` cut into consecutive pieces of `size` items, the last one shorter
/// where `size` does not divide the length.
pub open spec fn chunks<T>(s: Seq<T>, size: nat) -> Seq<Seq<T>>
    decreases s.len(),
{
    if size == 0 || s.len() == 0 {
        Seq::empty()
    } else if s.len() <= size {
        seq![s]
    } else {
        seq![s.take(size as int)] + chunks(s.skip(size as int), size)
    }
}

/// Cutting `s` into pieces of at most `size` gives as many pieces as `size`
/// goes into the length, rounded up; every piece but the last holds exactly
/// `size` items, the last holds what remains, and the pieces joined in order
/// give `s` back.
pub proof fn lemma_chunks_shape<T>(s: Seq<T>, size: nat)
    requires
        size > 0,
    ensures
        chunks(s, size).len() == (s.len() + size - 1) / size as int,
        forall|k: int| 0 <= k < chunks(s, size).len() - 1 ==> #[trigger] chunks(s, size)[k].len() == size,
        chunks(s, size).len() > 0 ==> chunks(s, size).last().len() == s.len() - (chunks(s, size).len()
            - 1) * size,
        chunks(s, size).flatten() == s,
    decreases s.len(),
{
    let c = chunks(s, size);
    if s.len() == 0 {
        vstd::arithmetic::div_mod::lemma_basic_div(size - 1, size as int);
    } else if s.len() <= size {
        vstd::arithmetic::div_mod::lemma_basic_div(s.len() - 1, size as int);
        vstd::arithmetic::div_mod::lemma_div_plus_one(s.len() - 1, size as int);
        assert(c.drop_first() =~= Seq::<Seq<T>>::empty());
        assert(c.drop_first().flatten() == Seq::<T>::empty());
        assert(c.first() == s);
        assert(c.flatten() =~= s);
        assert(c.last().len() == s.len() - (c.len() - 1) * size);
    } else {
        let rest = s.skip(size as int);
        let rc = chunks(rest, size);
        lemma_chunks_shape(rest, size);
        vstd::arithmetic::div_mod::lemma_div_plus_one(rest.len() + size - 1, size as int);
        assert(c.first() == s.take(size as int));
        assert(c.drop_first() =~= rc);
        assert(forall|k: int| 0 < k < c.len() ==> c[k] == rc[k - 1]);
        assert(c.last() == rc.last());
        let n = rc.len() as int;
        assert((n - 1) * size + size == n * size) by (nonlinear_arith);
        if n > 0 {
            assert(c.last().len() == s.len() - (c.len() - 1) * size);
        }
        assert(s.take(size as int) + rest =~= s);
    }
}

/// The ids that each batch holds.
pub open spec fn batches_view(b: Seq<Vec<String>>) -> Seq<Seq<Seq<char>>> {
    b.map_values(|v: Vec<String>| names_of(v@))
}

/// A copy of `ids[start..end]`.
fn copy_range(ids: &Vec<String>, start: usize, end: usize) -> (r: Vec<String>)
    requires
        start <= end <= ids@.len(),
    ensures
        names_of(r@) == names_of(ids@).subrange(start as int, end as int),
{
    let mut r: Vec<String> = Vec::new();
    let mut i: usize = start;
    while i < end
        invariant
            start <= i <= end <= ids@.len(),
            names_of(r@) == names_of(ids@).subrange(start as int, i as int),
        decreases end - i,
    {
        let ghost before = r@;
        r.push(ids[i].clone());
        assert(names_of(r@) =~= names_of(ids@).subrange(start as int, i + 1)) by {
            assert(r@ == before.push(ids@[i as int]));
            assert(names_of(r@) =~= names_of(before).push(ids@[i as int]@));
        }
        i = i + 1;
    }
    r
}

/// The ids cut into batches of at most `size`, in order.
pub fn batches(ids: &Vec<String>, size: usize) -> (r: Vec<Vec<String>>)
    requires
        size > 0,
    ensures
        batches_view(r@) == chunks(names_of(ids@), size as nat),
{
    let ghost all = names_of(ids@);
    let mut r: Vec<Vec<String>> = Vec::new();
    let mut start: usize = 0;
    assert(all.skip(0) =~= all);
    assert(batches_view(r@) =~= Seq::<Seq<Seq<char>>>::empty());
    while start < ids.len()
        invariant
            size > 0,
            start <= ids@.len(),
            all == names_of(ids@),
            batches_view(r@) + chunks(all.skip(start as int), size as nat) == chunks(all, size as nat),
        decreases ids@.len() - start,
    {
        let end: usize = if ids.len() - start <= size {
            ids.len()
        } else {
            start + size
        };
        let b = copy_range(ids, start, end);
        let ghost before = r@;
        r.push(b);
        proof {
            let rest = all.skip(start as int);
            assert(batches_view(r@) =~= batches_view(before).push(names_of(b@)));
            assert(names_of(b@) =~= rest.take((end - start) as int));
            if rest.len() <= size {
                assert(rest.take((end - start) as int) =~= rest);
                assert(all.skip(end as int) =~= Seq::<Seq<char>>::empty());
                assert(chunks(all.skip(end as int), size as nat) =~= Seq::<Seq<Seq<char>>>::empty());
            } else {
                assert(rest.skip(size as int) =~= all.skip(end as int));
            }
            assert(batches_view(r@) + chunks(all.skip(end as int), size as nat) =~= batches_view(
                before,
            ) + chunks(rest, size as nat));
        }
        start = end;
    }
    proof {
        assert(all.skip(start as int) =~= Seq::<Seq<char>>::empty());
        assert(batches_view(r@) + chunks(all.skip(start as int), size as nat) =~= batches_view(r@));
    }
    r
}

impl RunState {
    /// The delete requests that cleaning up after the run takes: after an
    /// abort, the outstanding ids in batches of at most `size`; otherwise none.
    pub fn cleanup_batches(&self, size: usize) -> (r: Vec<Vec<String>>)
        requires
            size > 0,
        ensures
            self.aborted ==> batches_view(r@) == chunks(names_of(self.outstanding@), size as nat),
            !self.aborted ==> r@.len() == 0,
            self@.outstanding.is_empty() ==> r@.len() == 0,
    {
        proof {
            if self.outstanding@.len() == 0 {
                assert(names_of(self.outstanding@).len() == 0);
            }
            if self.outstanding@.len() > 0 {
                assert(names_of(self.outstanding@)[0] == self.outstanding@[0]@);
                assert(self@.outstanding.contains(self.outstanding@[0]@));
            }
        }
        if self.aborted {
            let r = batches(&self.outstanding, size);
            assert(batches_view(r@).len() == r@.len());
            r
        } else {
            Vec::new()
        }
    }
}

} // verus!
