//! Matching against a plain hash table keyed by song name.
use std::collections::HashMap;
use vstd::prelude::*;

use crate::alignment::{count_of, lemma_counted_occurs, strongest_alignment};
use crate::db::MATCH_THRESHOLD;
use crate::types::Fingerprint;

verus! {

broadcast use vstd::std_specs::hash::group_hash_axioms;

/// The collisions of one query fingerprint: `(song name, posting time - query time)`.
pub open spec fn named_hits(database: Map<u64, Vec<(String, usize)>>, fp: Fingerprint) -> Seq<
    (Seq<char>, int),
> {
    if database.contains_key(fp.hash) {
        database[fp.hash]@.map_values(
            |e: (String, usize)| (e.0@, e.1 as int - fp.time_offset as int),
        )
    } else {
        Seq::empty()
    }
}

/// The collisions of a query, fingerprint by fingerprint.
pub open spec fn named_collisions(database: Map<u64, Vec<(String, usize)>>, query: Seq<Fingerprint>) -> Seq<
    (Seq<char>, int),
>
    decreases query.len(),
{
    if query.len() == 0 {
        Seq::empty()
    } else {
        named_collisions(database, query.drop_last()) + named_hits(database, query.last())
    }
}

/// How often `k` occurs in `cs`.
pub open spec fn named_count(cs: Seq<(Seq<char>, int)>, k: (Seq<char>, int)) -> nat
    decreases cs.len(),
{
    if cs.len() == 0 {
        0
    } else {
        named_count(cs.drop_last(), k) + if cs.last() == k {
            1nat
        } else {
            0nat
        }
    }
}

spec fn name_of(names: Seq<Seq<char>>, e: (usize, i128)) -> (Seq<char>, int) {
    (names[e.0 as int], e.1 as int)
}

spec fn named(names: Seq<Seq<char>>, cs: Seq<(usize, i128)>) -> Seq<(Seq<char>, int)> {
    cs.map_values(|e: (usize, i128)| name_of(names, e))
}

spec fn distinct(names: Seq<Seq<char>>) -> bool {
    forall|a: int, b: int| 0 <= a < names.len() && 0 <= b < names.len() && a != b ==> names[a] != names[b]
}

spec fn keys_below(cs: Seq<(usize, i128)>, n: int) -> bool {
    forall|j: int| 0 <= j < cs.len() ==> (#[trigger] cs[j]).0 < n
}

proof fn lemma_named_count(names: Seq<Seq<char>>, cs: Seq<(usize, i128)>, i: usize, d: i128)
    requires
        distinct(names),
        keys_below(cs, names.len() as int),
        i < names.len(),
    ensures
        named_count(named(names, cs), (names[i as int], d as int)) == count_of(cs, (i, d)),
    decreases cs.len(),
{
    if cs.len() > 0 {
        assert(named(names, cs).drop_last() =~= named(names, cs.drop_last()));
        lemma_named_count(names, cs.drop_last(), i, d);
        let last = cs.last();
        assert(last == cs[cs.len() - 1]);
        if name_of(names, last) == (names[i as int], d as int) {
            assert(last.0 == i);
        }
    }
}

proof fn lemma_named_occurs(cs: Seq<(Seq<char>, int)>, k: (Seq<char>, int)) -> (j: int)
    requires
        named_count(cs, k) > 0,
    ensures
        0 <= j < cs.len(),
        cs[j] == k,
    decreases cs.len(),
{
    if cs.last() == k {
        cs.len() - 1
    } else {
        lemma_named_occurs(cs.drop_last(), k)
    }
}

/// Finds the song whose most common time offset collects more than
/// `MATCH_THRESHOLD` collisions of the sample, and at least as many as any
/// other song's. `None` when no song gets past `MATCH_THRESHOLD`.
pub fn find_match(database: &HashMap<u64, Vec<(String, usize)>>, sample_fingerprints: &[Fingerprint]) -> (r: Option<String>)
    ensures
        r is Some <==> exists|k: (Seq<char>, int)|
            #[trigger] named_count(named_collisions(database@, sample_fingerprints@), k) > MATCH_THRESHOLD,
        r matches Some(name) ==> exists|delta: int|
            #![trigger named_count(named_collisions(database@, sample_fingerprints@), (name@, delta))]
            forall|k: (Seq<char>, int)|
                #[trigger] named_count(named_collisions(database@, sample_fingerprints@), k)
                    <= named_count(named_collisions(database@, sample_fingerprints@), (name@, delta)),
{
    let ghost db = database@;
    let mut names: Vec<String> = Vec::new();
    let mut cs: Vec<(usize, i128)> = Vec::new();
    let mut i: usize = 0;
    while i < sample_fingerprints.len()
        invariant
            i <= sample_fingerprints@.len(),
            db == database@,
            distinct(names@.map_values(|s: String| s@)),
            keys_below(cs@, names@.len() as int),
            named(names@.map_values(|s: String| s@), cs@) == named_collisions(
                db,
                sample_fingerprints@.take(i as int),
            ),
        decreases sample_fingerprints@.len() - i,
    {
        let fp = sample_fingerprints[i];
        assert(sample_fingerprints@.take(i + 1).drop_last() =~= sample_fingerprints@.take(i as int));
        let ghost prefix = named_collisions(db, sample_fingerprints@.take(i as int));
        match database.get(&fp.hash) {
            Some(entries) => {
                let ghost found = named_hits(db, fp);
                let mut j: usize = 0;
                while j < entries.len()
                    invariant
                        j <= entries@.len(),
                        db.contains_key(fp.hash),
                        entries@ == db[fp.hash]@,
                        found == named_hits(db, fp),
                        distinct(names@.map_values(|s: String| s@)),
                        keys_below(cs@, names@.len() as int),
                        named(names@.map_values(|s: String| s@), cs@) == prefix + found.take(j as int),
                    decreases entries@.len() - j,
                {
                    let ghost views0 = names@.map_values(|s: String| s@);
                    let ghost cs0 = cs@;
                    let (name, time) = &entries[j];
                    let mut at: usize = 0;
                    while at < names.len() && names[at] != *name
                        invariant
                            at <= names@.len(),
                            forall|b: int| 0 <= b < at ==> names@[b]@ != name@,
                        decreases names@.len() - at,
                    {
                        at = at + 1;
                    }
                    if at == names.len() {
                        names.push(name.clone());
                        let ghost views = names@.map_values(|s: String| s@);
                        assert(views =~= views0.push(name@));
                        assert(named(views, cs0) =~= named(views0, cs0));
                    }
                    let ghost views = names@.map_values(|s: String| s@);
                    cs.push((at, *time as i128 - fp.time_offset as i128));
                    assert(views[at as int] == name@);
                    assert(found.take(j + 1) =~= found.take(j as int).push(found[j as int]));
                    assert(named(views, cs@) =~= named(views, cs0).push(name_of(views, cs@.last())));
                    j = j + 1;
                }
                assert(found.take(entries@.len() as int) =~= found);
            },
            None => {
                assert(named_hits(db, fp) =~= Seq::<(Seq<char>, int)>::empty());
                assert(prefix + named_hits(db, fp) =~= prefix);
            },
        }
        i = i + 1;
    }
    assert(sample_fingerprints@.take(sample_fingerprints@.len() as int) =~= sample_fingerprints@);
    let ghost views = names@.map_values(|s: String| s@);
    let ghost ncs = named_collisions(db, sample_fingerprints@);
    match strongest_alignment(&cs) {
        Some((key, delta, count)) => {
            proof {
                let at = lemma_counted_occurs(cs@, (key, delta));
                assert(cs@[at].0 < views.len());
                lemma_named_count(views, cs@, key, delta);
                assert forall|k: (Seq<char>, int)| #[trigger] named_count(ncs, k) <= count by {
                    if named_count(ncs, k) > 0 {
                        let j = lemma_named_occurs(ncs, k);
                        assert(ncs[j] == name_of(views, cs@[j]));
                        lemma_named_count(views, cs@, cs@[j].0, cs@[j].1);
                    }
                }
            }
            if count > MATCH_THRESHOLD {
                let name = names[key].clone();
                assert(name@ == views[key as int]);
                assert(forall|k: (Seq<char>, int)| #[trigger]
                    named_count(ncs, k) <= named_count(ncs, (name@, delta as int)));
                let r = Some(name);
                assert(r matches Some(nm) ==> nm == name);
                r
            } else {
                None
            }
        },
        None => {
            proof {
                assert forall|k: (Seq<char>, int)| #[trigger] named_count(ncs, k) <= MATCH_THRESHOLD by {
                    if named_count(ncs, k) > 0 {
                        lemma_named_occurs(ncs, k);
                    }
                }
            }
            None
        },
    }
}

} // verus!
