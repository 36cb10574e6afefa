use vstd::prelude::*;

use crate::job::names_of;
use crate::run::position_of;

verus! {

/// Whether `a` comes no later than `b`, character by character, a prefix
/// first: the order of Rust's strings.
pub open spec fn chars_le(a: Seq<char>, b: Seq<char>) -> bool
    decreases a.len(),
{
    if a.len() == 0 {
        true
    } else if b.len() == 0 {
        false
    } else if a[0] != b[0] {
        (a[0] as int) < (b[0] as int)
    } else {
        chars_le(a.drop_first(), b.drop_first())
    }
}

/// Whether each name comes strictly before the next.
pub open spec fn names_ascending(v: Seq<String>) -> bool {
    forall|i: int|
        0 <= i < v.len() - 1 ==> chars_le(#[trigger] v[i]@, v[i + 1]@) && v[i]@ != v[i + 1]@
}

proof fn lemma_chars_le_total(a: Seq<char>, b: Seq<char>)
    ensures
        chars_le(a, b) || chars_le(b, a),
    decreases a.len(),
{
    if a.len() > 0 && b.len() > 0 && a[0] == b[0] {
        lemma_chars_le_total(a.drop_first(), b.drop_first());
    } else if a.len() > 0 && b.len() > 0 {
        assert((a[0] as int) != (b[0] as int));
    }
}

/// Whether `a` comes no later than `b`.
fn name_le(a: &String, b: &String) -> (r: bool)
    ensures
        r == chars_le(a@, b@),
{
    let sa = a.as_str();
    let sb = b.as_str();
    let la = sa.unicode_len();
    let lb = sb.unicode_len();
    let mut i: usize = 0;
    assert(a@.skip(0) =~= a@);
    assert(b@.skip(0) =~= b@);
    while i < la && i < lb
        invariant
            i <= la == a@.len(),
            i <= lb,
            lb == b@.len(),
            sa@ == a@,
            sb@ == b@,
            chars_le(a@, b@) == chars_le(a@.skip(i as int), b@.skip(i as int)),
        decreases la - i,
    {
        let ca = sa.get_char(i);
        let cb = sb.get_char(i);
        proof {
            let ra = a@.skip(i as int);
            let rb = b@.skip(i as int);
            assert(ra.drop_first() =~= a@.skip(i + 1));
            assert(rb.drop_first() =~= b@.skip(i + 1));
            assert(ra[0] == ca && rb[0] == cb);
        }
        if ca != cb {
            return (ca as u32) < (cb as u32);
        }
        i = i + 1;
    }
    proof {
        if i == la {
            assert(a@.skip(i as int).len() == 0);
        } else {
            assert(b@.skip(i as int).len() == 0);
        }
    }
    i == la
}

proof fn lemma_insert_names(v: Seq<String>, p: int, x: String)
    requires
        0 <= p <= v.len(),
    ensures
        names_of(v.insert(p, x)).to_set() == names_of(v).to_set().insert(x@),
{
    let w = v.insert(p, x);
    assert forall|y: Seq<char>| names_of(w).contains(y) <==> names_of(v).to_set().insert(x@).contains(y) by {
        if names_of(w).contains(y) {
            let k = choose|k: int| 0 <= k < w.len() && names_of(w)[k] == y;
            if k < p {
                assert(names_of(v)[k] == y);
            } else if k > p {
                assert(names_of(v)[k - 1] == y);
            }
        }
        if names_of(v).contains(y) {
            let k = choose|k: int| 0 <= k < v.len() && names_of(v)[k] == y;
            if k < p {
                assert(names_of(w)[k] == y);
            } else {
                assert(names_of(w)[k + 1] == y);
            }
        }
        if y == x@ {
            assert(names_of(w)[p] == y);
        }
    }
    assert(names_of(w).to_set() =~= names_of(v).to_set().insert(x@));
}

/// The distinct queue names of the broker's listing, in ascending order.
pub fn sort_queue_names(names: Vec<String>) -> (r: Vec<String>)
    ensures
        names_ascending(r@),
        names_of(r@).to_set() == names_of(names@).to_set(),
{
    let mut r: Vec<String> = Vec::new();
    let mut i: usize = 0;
    assert(names_of(r@).to_set() =~= names_of(names@.take(0)).to_set());
    while i < names.len()
        invariant
            i <= names@.len(),
            names_ascending(r@),
            names_of(r@).to_set() == names_of(names@.take(i as int)).to_set(),
        decreases names@.len() - i,
    {
        let x = names[i].clone();
        proof {
            assert(names_of(names@.take(i + 1)) =~= names_of(names@.take(i as int)).push(x@));
            names_of(names@.take(i as int)).lemma_push_to_set_commute(x@);
        }
        match position_of(&r, &x) {
            Some(j) => {
                proof {
                    assert(names_of(r@)[j as int] == x@);
                    assert(names_of(r@).to_set().insert(x@) =~= names_of(r@).to_set());
                }
            },
            None => {
                let mut p: usize = 0;
                while p < r.len() && name_le(&r[p], &x)
                    invariant
                        p <= r@.len(),
                        p > 0 ==> chars_le(r@[p - 1]@, x@),
                    decreases r@.len() - p,
                {
                    p = p + 1;
                }
                let ghost before = r@;
                proof {
                    if p < r@.len() {
                        lemma_chars_le_total(r@[p as int]@, x@);
                    }
                    if p > 0 {
                        assert(names_of(r@)[p - 1] == r@[p - 1]@);
                    }
                    if p < r@.len() {
                        assert(names_of(r@)[p as int] == r@[p as int]@);
                    }
                    lemma_insert_names(before, p as int, x);
                }
                r.insert(p, x);
                proof {
                    assert forall|k: int| 0 <= k < r@.len() - 1 implies chars_le(
                        #[trigger] r@[k]@,
                        r@[k + 1]@,
                    ) && r@[k]@ != r@[k + 1]@ by {
                        if k < p - 1 {
                            assert(r@[k] == before[k] && r@[k + 1] == before[k + 1]);
                        } else if k == p - 1 {
                            assert(r@[k] == before[k] && r@[k + 1] == x);
                        } else if k == p {
                            assert(r@[k] == x && r@[k + 1] == before[k]);
                        } else {
                            assert(r@[k] == before[k - 1] && r@[k + 1] == before[k]);
                            assert(chars_le(before[k - 1]@, before[k]@));
                        }
                    }
                }
            },
        }
        i = i + 1;
    }
    assert(names@.take(names@.len() as int) =~= names@);
    r
}

} // verus!
