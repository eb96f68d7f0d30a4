//! The time-delta histogram: many noisy hash collisions collapse into one
//! aligned count per `(song, delta)` pair.
use std::collections::HashMap;
use vstd::prelude::*;

verus! {

broadcast use vstd::std_specs::hash::group_hash_axioms;

/// How often the collision `k` (a song key and a time delta) occurs in `cs`.
pub open spec fn count_of(cs: Seq<(usize, i128)>, k: (usize, i128)) -> nat
    decreases cs.len(),
{
    if cs.len() == 0 {
        0
    } else {
        count_of(cs.drop_last(), k) + if cs.last() == k {
            1nat
        } else {
            0nat
        }
    }
}

/// `(key, delta)` is aligned `count` times in `cs`, and no pair is aligned more often.
pub open spec fn is_strongest(cs: Seq<(usize, i128)>, key: usize, delta: i128, count: usize) -> bool {
    &&& count == count_of(cs, (key, delta))
    &&& forall|k: (usize, i128)| #[trigger] count_of(cs, k) <= count
}

/// No pair is aligned more often in `cs` than `(key, delta)`.
pub open spec fn is_peak(cs: Seq<(usize, i128)>, key: usize, delta: i128) -> bool {
    forall|k: (usize, i128)| #[trigger] count_of(cs, k) <= count_of(cs, (key, delta))
}

pub proof fn lemma_count_bounded(cs: Seq<(usize, i128)>, k: (usize, i128))
    ensures
        count_of(cs, k) <= cs.len(),
    decreases cs.len(),
{
    if cs.len() > 0 {
        lemma_count_bounded(cs.drop_last(), k);
    }
}

pub proof fn lemma_count_positive(cs: Seq<(usize, i128)>, i: int)
    requires
        0 <= i < cs.len(),
    ensures
        count_of(cs, cs[i]) > 0,
    decreases cs.len(),
{
    if i < cs.len() - 1 {
        lemma_count_positive(cs.drop_last(), i);
    }
}

proof fn lemma_count_step(cs: Seq<(usize, i128)>, i: int, k: (usize, i128))
    requires
        0 <= i < cs.len(),
    ensures
        count_of(cs.take(i + 1), k) == count_of(cs.take(i), k) + if cs[i] == k {
            1nat
        } else {
            0nat
        },
{
    assert(cs.take(i + 1).drop_last() =~= cs.take(i));
}

pub proof fn lemma_count_concat(a: Seq<(usize, i128)>, b: Seq<(usize, i128)>, k: (usize, i128))
    ensures
        count_of(a + b, k) == count_of(a, k) + count_of(b, k),
    decreases b.len(),
{
    if b.len() == 0 {
        assert(a + b =~= a);
    } else {
        assert((a + b).drop_last() =~= a + b.drop_last());
        lemma_count_concat(a, b.drop_last(), k);
    }
}

/// A collision that is counted occurs in the sequence.
pub proof fn lemma_counted_occurs(cs: Seq<(usize, i128)>, k: (usize, i128)) -> (i: int)
    requires
        count_of(cs, k) > 0,
    ensures
        0 <= i < cs.len(),
        cs[i] == k,
    decreases cs.len(),
{
    if cs.last() == k {
        cs.len() - 1
    } else {
        lemma_counted_occurs(cs.drop_last(), k)
    }
}

/// The count that the two-level histogram `h` holds for `k`, 0 where it has none.
pub open spec fn histogram_count(h: Map<usize, HashMap<i128, usize>>, k: (usize, i128)) -> nat {
    if h.contains_key(k.0) && h[k.0]@.contains_key(k.1) {
        h[k.0]@[k.1] as nat
    } else {
        0
    }
}

/// Builds the two-level histogram `key -> (delta -> count)` of the collisions
/// and returns a pair with the highest count, with that count. Among pairs of
/// equal count, the one that reached it first wins. `None` when there are no
/// collisions.
pub fn strongest_alignment(cs: &Vec<(usize, i128)>) -> (r: Option<(usize, i128, usize)>)
    ensures
        r is None <==> cs@.len() == 0,
        r matches Some((key, delta, count)) ==> count > 0 && is_strongest(cs@, key, delta, count),
{
    let mut hist: HashMap<usize, HashMap<i128, usize>> = HashMap::new();
    let mut best: Option<(usize, i128, usize)> = None;
    let mut i: usize = 0;
    while i < cs.len()
        invariant
            i <= cs@.len(),
            forall|k: (usize, i128)|
                #[trigger] histogram_count(hist@, k) == count_of(cs@.take(i as int), k),
            best is None <==> i == 0,
            best matches Some((key, delta, count)) ==> count > 0 && is_strongest(
                cs@.take(i as int),
                key,
                delta,
                count,
            ),
        decreases cs@.len() - i,
    {
        let (key, delta) = cs[i];
        let ghost before = cs@.take(i as int);
        let ghost after = cs@.take(i + 1);
        let ghost h0 = hist@;
        proof {
            lemma_count_bounded(before, (key, delta));
            assert(histogram_count(h0, (key, delta)) == count_of(before, (key, delta)));
        }
        let mut row = match hist.remove(&key) {
            Some(row) => row,
            None => HashMap::new(),
        };
        let ghost row0 = row@;
        assert(row0 == if h0.contains_key(key) {
            h0[key]@
        } else {
            Map::<i128, usize>::empty()
        });
        let seen: usize = match row.get(&delta) {
            Some(c) => *c,
            None => 0,
        };
        assert(seen == count_of(before, (key, delta)));
        let count = seen + 1;
        row.insert(delta, count);
        hist.insert(key, row);
        assert(hist@ == h0.remove(key).insert(key, row));
        assert forall|k: (usize, i128)| #[trigger]
            histogram_count(hist@, k) == count_of(after, k) by {
            lemma_count_step(cs@, i as int, k);
            assert(histogram_count(h0, k) == count_of(before, k));
            if k.0 == key {
                assert(hist@[key]@ == row0.insert(delta, count));
            } else {
                assert(hist@.contains_key(k.0) == h0.contains_key(k.0));
            }
        }
        let replace = match best {
            None => true,
            Some((_, _, c)) => count > c,
        };
        if replace {
            best = Some((key, delta, count));
        }
        proof {
            if let Some((bk, bd, bc)) = best {
                lemma_count_step(cs@, i as int, (bk, bd));
                assert forall|k: (usize, i128)| #[trigger] count_of(after, k) <= bc by {
                    lemma_count_step(cs@, i as int, k);
                    lemma_count_step(cs@, i as int, (key, delta));
                    if i == 0 {
                        assert(before.len() == 0);
                    }
                }
            }
        }
        i = i + 1;
    }
    assert(cs@.take(cs@.len() as int) =~= cs@);
    best
}

} // verus!
