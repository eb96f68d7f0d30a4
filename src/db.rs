//! The inverted index: song ids to names, and hashes to postings
//! `(song_id, time_offset)`, with the matcher that reads it.
use std::collections::HashMap;
use vstd::prelude::*;

use crate::alignment::{
    count_of, is_peak, is_strongest, lemma_count_concat, lemma_count_positive, lemma_counted_occurs,
    strongest_alignment,
};
use crate::types::Fingerprint;
use vstd::std_specs::hash::spec_hash_map_iter;
use vstd::std_specs::iter::IteratorSpec;

verus! {

broadcast use vstd::std_specs::hash::group_hash_axioms;

/// The names of a song table, as character sequences.
pub open spec fn names_view(m: Map<u32, String>) -> Map<u32, Seq<char>> {
    m.map_values(|s: String| s@)
}

/// The posting lists of a hash table, as sequences.
pub open spec fn postings_view(m: Map<u64, Vec<(u32, usize)>>) -> Map<u64, Seq<(u32, usize)>> {
    m.map_values(|v: Vec<(u32, usize)>| v@)
}

/// The index invariants over the three parts of an index.
pub open spec fn index_wf(
    songs: Map<u32, Seq<char>>,
    postings: Map<u64, Seq<(u32, usize)>>,
    next_song_id: u32,
) -> bool {
    &&& forall|id: u32| #[trigger] songs.contains_key(id) ==> id < next_song_id
    &&& forall|h: u64| #[trigger] postings.contains_key(h) ==> postings[h].len() > 0
    &&& forall|h: u64, k: int|
        postings.contains_key(h) && 0 <= k < postings[h].len() ==> {
            let id = (#[trigger] postings[h][k]).0;
            songs.contains_key(id) && id < next_song_id
        }
}

/// `postings` with `p` appended to the list of `hash`.
pub open spec fn with_posting(
    postings: Map<u64, Seq<(u32, usize)>>,
    hash: u64,
    p: (u32, usize),
) -> Map<u64, Seq<(u32, usize)>> {
    postings.insert(
        hash,
        if postings.contains_key(hash) {
            postings[hash].push(p)
        } else {
            seq![p]
        },
    )
}

/// `postings` with `(song_id, fp.time_offset)` appended under `fp.hash` for each
/// fingerprint `fp` of `fps`, in order.
pub open spec fn with_fingerprints(
    postings: Map<u64, Seq<(u32, usize)>>,
    song_id: u32,
    fps: Seq<Fingerprint>,
) -> Map<u64, Seq<(u32, usize)>>
    decreases fps.len(),
{
    if fps.len() == 0 {
        postings
    } else {
        with_posting(
            with_fingerprints(postings, song_id, fps.drop_last()),
            fps.last().hash,
            (song_id, fps.last().time_offset),
        )
    }
}

/// The file extensions that ingestion takes, compared case-sensitively.
pub open spec fn is_audio_extension_spec(ext: Seq<char>) -> bool {
    ext == seq!['m', 'p', '3'] || ext == seq!['w', 'a', 'v']
}

/// Whether a file with this extension is indexed: `mp3` or `wav`, exactly.
pub fn is_audio_extension(ext: &str) -> (r: bool)
    ensures
        r == is_audio_extension_spec(ext@),
{
    if ext.unicode_len() != 3 {
        return false;
    }
    let a = ext.get_char(0);
    let b = ext.get_char(1);
    let c = ext.get_char(2);
    let r = (a == 'm' && b == 'p' && c == '3') || (a == 'w' && b == 'a' && c == 'v');
    assert(r ==> is_audio_extension_spec(ext@)) by {
        if a == 'm' && b == 'p' && c == '3' {
            assert(ext@ =~= seq!['m', 'p', '3']);
        }
        if a == 'w' && b == 'a' && c == 'v' {
            assert(ext@ =~= seq!['w', 'a', 'v']);
        }
    }
    r
}

/// Fewest collisions that must align on one `(song, delta)` pair for a match.
pub const MATCH_THRESHOLD: usize = 10;

/// The collisions of one query fingerprint: `(song_id, posting time - query time)`
/// for each posting of its hash.
pub open spec fn hits(postings: Map<u64, Seq<(u32, usize)>>, fp: Fingerprint) -> Seq<(usize, i128)> {
    if postings.contains_key(fp.hash) {
        postings[fp.hash].map_values(
            |p: (u32, usize)| (p.0 as usize, (p.1 as int - fp.time_offset as int) as i128),
        )
    } else {
        Seq::empty()
    }
}

/// The collisions of a query, fingerprint by fingerprint.
pub open spec fn collisions(postings: Map<u64, Seq<(u32, usize)>>, query: Seq<Fingerprint>) -> Seq<
    (usize, i128),
>
    decreases query.len(),
{
    if query.len() == 0 {
        Seq::empty()
    } else {
        collisions(postings, query.drop_last()) + hits(postings, query.last())
    }
}

/// The strongest alignment of a query: `count` of its collisions fall on
/// `song_id` at time offset `delta` (index time minus query time).
#[derive(Clone, Copy, Debug, PartialEq, Eq)]
pub struct Alignment {
    pub song_id: u32,
    pub delta: i128,
    pub count: usize,
}

/// Every collision comes from a posting: returns its hash and position.
pub proof fn lemma_collision_source(
    postings: Map<u64, Seq<(u32, usize)>>,
    query: Seq<Fingerprint>,
    i: int,
) -> (at: (u64, int))
    requires
        0 <= i < collisions(postings, query).len(),
    ensures
        postings.contains_key(at.0),
        0 <= at.1 < postings[at.0].len(),
        collisions(postings, query)[i].0 == postings[at.0][at.1].0 as usize,
    decreases query.len(),
{
    let prefix = collisions(postings, query.drop_last());
    if i < prefix.len() {
        lemma_collision_source(postings, query.drop_last(), i)
    } else {
        (query.last().hash, i - prefix.len())
    }
}

/// In a well-formed index every collision names an indexed song.
pub proof fn lemma_collisions_name_songs(
    songs: Map<u32, Seq<char>>,
    postings: Map<u64, Seq<(u32, usize)>>,
    next_song_id: u32,
    query: Seq<Fingerprint>,
    i: int,
)
    requires
        index_wf(songs, postings, next_song_id),
        0 <= i < collisions(postings, query).len(),
    ensures
        collisions(postings, query)[i].0 <= u32::MAX,
        songs.contains_key(collisions(postings, query)[i].0 as u32),
{
    let at = lemma_collision_source(postings, query, i);
    let p = postings[at.0][at.1];
    assert(songs.contains_key(p.0));
}

/// Why an index could not be built or restored.
#[derive(Clone, Copy, Debug, PartialEq, Eq)]
pub enum IndexError {
    /// A file or directory could not be opened, read or written.
    Io,
    /// No usable audio came out of a file.
    Decode,
    /// A restored index breaks the index invariants.
    CorruptIndex,
}

/// The list of one hash meets the invariants: not empty, and every posting
/// names a song of `songs` below `next_song_id`.
pub open spec fn postings_ok(songs: Map<u32, Seq<char>>, list: Seq<(u32, usize)>, next_song_id: u32) -> bool {
    &&& list.len() > 0
    &&& forall|k: int| 0 <= k < list.len() ==> songs.contains_key(#[trigger] list[k].0) && list[k].0 < next_song_id
}

proof fn lemma_wf_by_lists(
    songs: Map<u32, Seq<char>>,
    postings: Map<u64, Seq<(u32, usize)>>,
    next_song_id: u32,
)
    ensures
        index_wf(songs, postings, next_song_id) <==> {
            &&& forall|id: u32| #[trigger] songs.contains_key(id) ==> id < next_song_id
            &&& forall|h: u64| #[trigger]
                postings.contains_key(h) ==> postings_ok(songs, postings[h], next_song_id)
        },
{
    if index_wf(songs, postings, next_song_id) {
        assert forall|h: u64| #[trigger] postings.contains_key(h) implies postings_ok(
            songs,
            postings[h],
            next_song_id,
        ) by {
            assert forall|k: int| 0 <= k < postings[h].len() implies songs.contains_key(
                #[trigger] postings[h][k].0,
            ) && postings[h][k].0 < next_song_id by {}
        }
    }
    if forall|h: u64| #[trigger]
        postings.contains_key(h) ==> postings_ok(songs, postings[h], next_song_id) {
        assert forall|h: u64, k: int|
            postings.contains_key(h) && 0 <= k < postings[h].len() implies {
            let id = (#[trigger] postings[h][k]).0;
            songs.contains_key(id) && id < next_song_id
        } by {
            assert(postings_ok(songs, postings[h], next_song_id));
        }
    }
}

fn check_postings(songs: &HashMap<u32, String>, list: &Vec<(u32, usize)>, next_song_id: u32) -> (r: bool)
    ensures
        r == postings_ok(names_view(songs@), list@, next_song_id),
{
    if list.len() == 0 {
        return false;
    }
    let mut i: usize = 0;
    while i < list.len()
        invariant
            i <= list@.len(),
            list@.len() > 0,
            forall|k: int| 0 <= k < i ==> songs@.contains_key(#[trigger] list@[k].0) && list@[k].0 < next_song_id,
        decreases list@.len() - i,
    {
        let (id, _) = list[i];
        if !(id < next_song_id && songs.contains_key(&id)) {
            return false;
        }
        i = i + 1;
    }
    true
}

/// Appends `(song_id, fp.time_offset)` under `fp.hash` for each fingerprint.
fn append_postings(hashes: &mut HashMap<u64, Vec<(u32, usize)>>, song_id: u32, fps: &[Fingerprint])
    ensures
        postings_view(final(hashes)@) == with_fingerprints(postings_view(old(hashes)@), song_id, fps@),
{
    let ghost initial = postings_view(hashes@);
    let mut i: usize = 0;
    while i < fps.len()
        invariant
            i <= fps@.len(),
            postings_view(hashes@) == with_fingerprints(initial, song_id, fps@.take(i as int)),
        decreases fps@.len() - i,
    {
        let fp = fps[i];
        let ghost before = postings_view(hashes@);
        let list = match hashes.remove(&fp.hash) {
            Some(mut list) => {
                list.push((song_id, fp.time_offset));
                list
            },
            None => {
                let mut list: Vec<(u32, usize)> = Vec::new();
                list.push((song_id, fp.time_offset));
                list
            },
        };
        hashes.insert(fp.hash, list);
        assert(fps@.take(i + 1).drop_last() =~= fps@.take(i as int));
        assert(postings_view(hashes@) =~= with_posting(before, fp.hash, (song_id, fp.time_offset)));
        i = i + 1;
    }
    assert(fps@.take(fps@.len() as int) =~= fps@);
}

/// Inserting postings of an indexed song keeps the index invariants.
pub proof fn lemma_with_fingerprints_wf(
    songs: Map<u32, Seq<char>>,
    postings: Map<u64, Seq<(u32, usize)>>,
    next_song_id: u32,
    song_id: u32,
    fps: Seq<Fingerprint>,
)
    requires
        index_wf(songs, postings, next_song_id),
        songs.contains_key(song_id),
    ensures
        index_wf(songs, with_fingerprints(postings, song_id, fps), next_song_id),
    decreases fps.len(),
{
    if fps.len() > 0 {
        lemma_with_fingerprints_wf(songs, postings, next_song_id, song_id, fps.drop_last());
        let init = with_fingerprints(postings, song_id, fps.drop_last());
        let w = with_fingerprints(postings, song_id, fps);
        assert forall|h: u64, k: int| w.contains_key(h) && 0 <= k < w[h].len() implies {
            let id = (#[trigger] w[h][k]).0;
            songs.contains_key(id) && id < next_song_id
        } by {
            if h == fps.last().hash && init.contains_key(h) && k < init[h].len() {
                assert(w[h][k] == init[h][k]);
            }
        }
    }
}

/// Song names by id, postings by hash, and the next id to hand out.
pub struct AudioDatabase {
    songs: HashMap<u32, String>,
    hashes: HashMap<u64, Vec<(u32, usize)>>,
    next_song_id: u32,
}

impl AudioDatabase {
    pub closed spec fn song_names(&self) -> Map<u32, Seq<char>> {
        names_view(self.songs@)
    }

    pub closed spec fn postings(&self) -> Map<u64, Seq<(u32, usize)>> {
        postings_view(self.hashes@)
    }

    pub closed spec fn next_id(&self) -> u32 {
        self.next_song_id
    }

    pub open spec fn wf(&self) -> bool {
        index_wf(self.song_names(), self.postings(), self.next_id())
    }

    /// An empty index; the first song gets id 0.
    pub fn new() -> (db: Self)
        ensures
            db.wf(),
            db.song_names() == Map::<u32, Seq<char>>::empty(),
            db.postings() == Map::<u64, Seq<(u32, usize)>>::empty(),
            db.next_id() == 0,
    {
        let db = AudioDatabase { songs: HashMap::new(), hashes: HashMap::new(), next_song_id: 0 };
        assert(db.song_names() =~= Map::<u32, Seq<char>>::empty());
        assert(db.postings() =~= Map::<u64, Seq<(u32, usize)>>::empty());
        db
    }

    /// The postings of `hash`, if any.
    pub fn lookup(&self, hash: u64) -> (r: Option<&Vec<(u32, usize)>>)
        ensures
            match r {
                Some(v) => self.postings().contains_key(hash) && v@ == self.postings()[hash],
                None => !self.postings().contains_key(hash),
            },
    {
        self.hashes.get(&hash)
    }

    /// The name of song `song_id`, if it is indexed.
    pub fn song_name(&self, song_id: u32) -> (r: Option<&String>)
        ensures
            match r {
                Some(name) => self.song_names().contains_key(song_id) && name@
                    == self.song_names()[song_id],
                None => !self.song_names().contains_key(song_id),
            },
    {
        self.songs.get(&song_id)
    }

    /// The id the next ingested song receives.
    pub fn next_song_id(&self) -> (r: u32)
        ensures
            r == self.next_id(),
    {
        self.next_song_id
    }

    #[verifier::type_invariant]
    closed spec fn inv(&self) -> bool {
        self.wf()
    }

    /// Allocates the next song id for `name`.
    fn add_song(&mut self, name: String) -> (id: u32)
        requires
            old(self).next_id() < u32::MAX,
        ensures
            id == old(self).next_id(),
            final(self).next_id() == old(self).next_id() + 1,
            final(self).song_names() == old(self).song_names().insert(id, name@),
            final(self).postings() == old(self).postings(),
    {
        let mut taken = AudioDatabase::new();
        std::mem::swap(self, &mut taken);
        proof {
            use_type_invariant(&taken);
        }
        let ghost names0 = taken.song_names();
        let AudioDatabase { mut songs, hashes, next_song_id } = taken;
        let id = next_song_id;
        songs.insert(id, name);
        assert(names_view(songs@) =~= names0.insert(id, name@));
        *self = AudioDatabase { songs, hashes, next_song_id: id + 1 };
        id
    }

    /// Appends `(song_id, fp.time_offset)` to the postings of `fp.hash` for each
    /// fingerprint, in order.
    pub fn insert_fingerprints(&mut self, song_id: u32, fps: &[Fingerprint])
        requires
            old(self).song_names().contains_key(song_id),
        ensures
            final(self).wf(),
            final(self).song_names() == old(self).song_names(),
            final(self).next_id() == old(self).next_id(),
            final(self).postings() == with_fingerprints(old(self).postings(), song_id, fps@),
    {
        let mut taken = AudioDatabase::new();
        std::mem::swap(self, &mut taken);
        proof {
            use_type_invariant(&taken);
        }
        let AudioDatabase { songs, mut hashes, next_song_id } = taken;
        append_postings(&mut hashes, song_id, fps);
        proof {
            lemma_with_fingerprints_wf(names_view(songs@), postings_view(old(self).hashes@), next_song_id, song_id, fps@);
        }
        *self = AudioDatabase { songs, hashes, next_song_id };
    }

    /// The ingestion writer's step: gives `name` the next song id and inserts
    /// its fingerprints under that id.
    pub fn ingest(&mut self, name: String, fps: &[Fingerprint]) -> (id: u32)
        requires
            old(self).next_id() < u32::MAX,
        ensures
            final(self).wf(),
            id == old(self).next_id(),
            final(self).next_id() == old(self).next_id() + 1,
            final(self).song_names() == old(self).song_names().insert(id, name@),
            final(self).postings() == with_fingerprints(old(self).postings(), id, fps@),
    {
        let id = self.add_song(name);
        self.insert_fingerprints(id, fps);
        id
    }

    /// The histogram of `posting time - query time` per song over all hash
    /// collisions of the query, and its highest bin. `None` when no query hash
    /// is indexed.
    pub fn best_alignment(&self, query: &[Fingerprint]) -> (r: Option<Alignment>)
        ensures
            r is None <==> collisions(self.postings(), query@).len() == 0,
            r matches Some(a) ==> a.count > 0 && is_strongest(
                collisions(self.postings(), query@),
                a.song_id as usize,
                a.delta,
                a.count,
            ),
    {
        let ghost postings = self.postings();
        let mut cs: Vec<(usize, i128)> = Vec::new();
        let mut i: usize = 0;
        while i < query.len()
            invariant
                i <= query@.len(),
                postings == self.postings(),
                cs@ == collisions(postings, query@.take(i as int)),
            decreases query@.len() - i,
        {
            let fp = query[i];
            assert(query@.take(i + 1).drop_last() =~= query@.take(i as int));
            let ghost prefix = cs@;
            match self.hashes.get(&fp.hash) {
                Some(list) => {
                    let ghost found = hits(postings, fp);
                    let mut j: usize = 0;
                    while j < list.len()
                        invariant
                            j <= list@.len(),
                            postings.contains_key(fp.hash),
                            list@ == postings[fp.hash],
                            found == hits(postings, fp),
                            cs@ == prefix + found.take(j as int),
                        decreases list@.len() - j,
                    {
                        let (song_id, time) = list[j];
                        cs.push((song_id as usize, time as i128 - fp.time_offset as i128));
                        assert(found.take(j + 1) =~= found.take(j as int).push(found[j as int]));
                        assert(cs@ =~= prefix + found.take(j + 1));
                        j = j + 1;
                    }
                    assert(found.take(list@.len() as int) =~= found);
                },
                None => {
                    assert(cs@ =~= prefix + hits(postings, fp));
                },
            }
            i = i + 1;
        }
        assert(query@.take(query@.len() as int) =~= query@);
        match strongest_alignment(&cs) {
            Some((key, delta, count)) => {
                proof {
                    let at = lemma_counted_occurs(cs@, (key, delta));
                    lemma_collision_source(postings, query@, at);
                }
                Some(Alignment { song_id: key as u32, delta, count })
            },
            None => None,
        }
    }

    /// Accepts an alignment as a match when at least `MATCH_THRESHOLD`
    /// collisions agree on it, and names its song.
    pub fn accept_alignment(&self, best: Option<Alignment>) -> (r: Option<String>)
        ensures
            r is Some <==> (best matches Some(a) && a.count >= MATCH_THRESHOLD
                && self.song_names().contains_key(a.song_id)),
            r matches Some(name) ==> name@ == self.song_names()[best->Some_0.song_id],
    {
        match best {
            Some(a) => {
                if a.count >= MATCH_THRESHOLD {
                    match self.songs.get(&a.song_id) {
                        Some(name) => Some(name.clone()),
                        None => None,
                    }
                } else {
                    None
                }
            },
            None => None,
        }
    }

    /// The name of the song whose best time offset collects the most hash
    /// collisions of the query, when that count reaches `MATCH_THRESHOLD`.
    pub fn find_best_match(&self, query: &[Fingerprint]) -> (r: Option<String>)
        ensures
            r is Some <==> exists|k: (usize, i128)|
                #[trigger] count_of(collisions(self.postings(), query@), k) >= MATCH_THRESHOLD,
            r matches Some(name) ==> exists|id: u32, delta: i128|
                #![trigger is_peak(collisions(self.postings(), query@), id as usize, delta)]
                self.song_names().contains_key(id) && name@ == self.song_names()[id] && is_peak(
                    collisions(self.postings(), query@),
                    id as usize,
                    delta,
                ),
    {
        proof {
            use_type_invariant(self);
        }
        let best = self.best_alignment(query);
        let ghost cs = collisions(self.postings(), query@);
        proof {
            match best {
                Some(a) => {
                    if a.count >= MATCH_THRESHOLD {
                        let at = lemma_counted_occurs(cs, (a.song_id as usize, a.delta));
                        lemma_collisions_name_songs(
                            self.song_names(),
                            self.postings(),
                            self.next_id(),
                            query@,
                            at,
                        );
                        assert(count_of(cs, (a.song_id as usize, a.delta)) >= MATCH_THRESHOLD);
                    } else {
                        assert forall|k: (usize, i128)| #[trigger]
                            count_of(cs, k) < MATCH_THRESHOLD by {}
                    }
                },
                None => {
                    assert forall|k: (usize, i128)| #[trigger] count_of(cs, k) < MATCH_THRESHOLD by {}
                },
            }
        }
        let r = self.accept_alignment(best);
        proof {
            if let Some(a) = best {
                if r is Some {
                    assert(is_peak(cs, a.song_id as usize, a.delta));
                }
            }
        }
        r
    }

    /// Rebuilds an index from its three parts, as restored from a snapshot;
    /// fails with `CorruptIndex` when they break the index invariants.
    pub fn from_parts(
        songs: HashMap<u32, String>,
        hashes: HashMap<u64, Vec<(u32, usize)>>,
        next_song_id: u32,
    ) -> (r: Result<AudioDatabase, IndexError>)
        ensures
            r is Ok <==> index_wf(
                names_view(songs@),
                postings_view(hashes@),
                next_song_id,
            ),
            r matches Ok(db) ==> {
                &&& db.song_names() == names_view(songs@)
                &&& db.postings() == postings_view(hashes@)
                &&& db.next_id() == next_song_id
            },
            r matches Err(e) ==> e == IndexError::CorruptIndex,
    {
        let ghost names = names_view(songs@);
        let ghost postings = postings_view(hashes@);
        let ghost song_entries = spec_hash_map_iter(&songs).remaining();
        let ghost mut seen: int = 0;
        let mut ok = true;
        for entry in it: songs.iter()
            invariant
                it.seq() == song_entries,
                seen == it.index(),
                ok <==> forall|j: int| 0 <= j < seen ==> *(#[trigger] song_entries[j]).0 < next_song_id,
        {
            let (id, _) = entry;
            if *id >= next_song_id {
                ok = false;
            }
            proof {
                seen = seen + 1;
            }
        }
        proof {
            let v = song_entries;
            if ok {
                assert forall|id: u32| #[trigger] names.contains_key(id) implies id < next_song_id by {
                    assert(songs@.contains_key(id));
                    assert(v.contains((&id, &songs@[id])));
                    let j = choose|j: int| 0 <= j < v.len() && v[j] == (&id, &songs@[id]);
                    assert(*v[j].0 < next_song_id);
                }
            } else {
                let j = choose|j: int| 0 <= j < seen && !(*v[j].0 < next_song_id);
                assert(songs@.contains_key(*v[j].0));
                assert(names.contains_key(*v[j].0));
            }
        }
        assert(ok <==> forall|id: u32| #[trigger] names.contains_key(id) ==> id < next_song_id);
        let ghost list_entries = spec_hash_map_iter(&hashes).remaining();
        let ghost mut checked: int = 0;
        let mut lists_ok = true;
        for entry in it2: hashes.iter()
            invariant
                it2.seq() == list_entries,
                names == names_view(songs@),
                checked == it2.index(),
                lists_ok <==> forall|j: int| 0 <= j < checked ==> postings_ok(names, (*(#[trigger] list_entries[j]).1)@, next_song_id),
        {
            let (_, list) = entry;
            if !check_postings(&songs, list, next_song_id) {
                lists_ok = false;
            }
            proof {
                checked = checked + 1;
            }
        }
        proof {
            let v = list_entries;
            if lists_ok {
                assert forall|h: u64| #[trigger] postings.contains_key(h) implies postings_ok(
                    names,
                    postings[h],
                    next_song_id,
                ) by {
                    assert(hashes@.contains_key(h));
                    assert(v.contains((&h, &hashes@[h])));
                    let j = choose|j: int| 0 <= j < v.len() && v[j] == (&h, &hashes@[h]);
                    assert(postings_ok(names, (*v[j].1)@, next_song_id));
                }
            } else {
                let j = choose|j: int|
                    0 <= j < checked && !postings_ok(names, (*v[j].1)@, next_song_id);
                assert(hashes@.contains_key(*v[j].0));
                assert(postings.contains_key(*v[j].0));
            }
        }
        assert(lists_ok <==> forall|h: u64| #[trigger]
            postings.contains_key(h) ==> postings_ok(names, postings[h], next_song_id));
        proof {
            lemma_wf_by_lists(names, postings, next_song_id);
        }
        if ok && lists_ok {
            Ok(AudioDatabase { songs, hashes, next_song_id })
        } else {
            Err(IndexError::CorruptIndex)
        }
    }

    /// The song table, for writing a snapshot.
    pub fn songs(&self) -> (r: &HashMap<u32, String>)
        ensures
            names_view(r@) == self.song_names(),
    {
        &self.songs
    }

    /// The hash table, for writing a snapshot.
    pub fn hashes(&self) -> (r: &HashMap<u64, Vec<(u32, usize)>>)
        ensures
            postings_view(r@) == self.postings(),
    {
        &self.hashes
    }

    /// Takes the index apart into the three parts that a snapshot holds.
    pub fn into_parts(self) -> (r: (HashMap<u32, String>, HashMap<u64, Vec<(u32, usize)>>, u32))
        ensures
            names_view(r.0@) == self.song_names(),
            postings_view(r.1@) == self.postings(),
            r.2 == self.next_id(),
    {
        (self.songs, self.hashes, self.next_song_id)
    }
}

/// Restoring what was saved from an index succeeds: parts whose views are
/// those of a well-formed index meet the invariants that `from_parts` checks,
/// so it accepts them, and its result then has those same songs, posting lists
/// and next song id.
pub proof fn lemma_restore_round_trip(
    db: &AudioDatabase,
    songs: HashMap<u32, String>,
    hashes: HashMap<u64, Vec<(u32, usize)>>,
    next_song_id: u32,
)
    requires
        db.wf(),
        names_view(songs@) == db.song_names(),
        postings_view(hashes@) == db.postings(),
        next_song_id == db.next_id(),
    ensures
        index_wf(names_view(songs@), postings_view(hashes@), next_song_id),
{
}

proof fn lemma_posting_kept(
    postings: Map<u64, Seq<(u32, usize)>>,
    hash: u64,
    p: (u32, usize),
    h: u64,
    j: int,
)
    requires
        postings.contains_key(h),
        0 <= j < postings[h].len(),
    ensures
        with_posting(postings, hash, p).contains_key(h),
        j < with_posting(postings, hash, p)[h].len(),
        with_posting(postings, hash, p)[h][j] == postings[h][j],
{
}

/// Each inserted fingerprint has its own posting: returns its position.
proof fn lemma_inserted(
    postings: Map<u64, Seq<(u32, usize)>>,
    song_id: u32,
    fps: Seq<Fingerprint>,
    i: int,
) -> (j: int)
    requires
        0 <= i < fps.len(),
    ensures
        with_fingerprints(postings, song_id, fps).contains_key(fps[i].hash),
        0 <= j < with_fingerprints(postings, song_id, fps)[fps[i].hash].len(),
        with_fingerprints(postings, song_id, fps)[fps[i].hash][j] == (song_id, fps[i].time_offset),
    decreases fps.len(),
{
    let init = with_fingerprints(postings, song_id, fps.drop_last());
    let last = fps.last();
    if i == fps.len() - 1 {
        if init.contains_key(last.hash) {
            init[last.hash].len() as int
        } else {
            0
        }
    } else {
        let j = lemma_inserted(postings, song_id, fps.drop_last(), i);
        lemma_posting_kept(init, last.hash, (song_id, last.time_offset), fps[i].hash, j);
        j
    }
}

/// Postings that all name one song still do after inserting more for it.
proof fn lemma_single_song_postings(postings: Map<u64, Seq<(u32, usize)>>, song_id: u32, fps: Seq<Fingerprint>)
    requires
        forall|h: u64, j: int|
            postings.contains_key(h) && 0 <= j < postings[h].len() ==> (#[trigger] postings[h][j]).0
                == song_id,
    ensures
        ({
            let w = with_fingerprints(postings, song_id, fps);
            forall|h: u64, j: int|
                w.contains_key(h) && 0 <= j < w[h].len() ==> (#[trigger] w[h][j]).0 == song_id
        }),
    decreases fps.len(),
{
    if fps.len() > 0 {
        lemma_single_song_postings(postings, song_id, fps.drop_last());
        let init = with_fingerprints(postings, song_id, fps.drop_last());
        let w = with_fingerprints(postings, song_id, fps);
        assert forall|h: u64, j: int| w.contains_key(h) && 0 <= j < w[h].len() implies (#[trigger] w[h][j]).0
            == song_id by {
            if h == fps.last().hash && init.contains_key(h) && j < init[h].len() {
                assert(w[h][j] == init[h][j]);
            }
        }
    }
}

proof fn lemma_self_match_prefix(
    postings: Map<u64, Seq<(u32, usize)>>,
    song_id: u32,
    fps: Seq<Fingerprint>,
    m: int,
)
    requires
        0 <= m <= fps.len(),
    ensures
        count_of(
            collisions(with_fingerprints(postings, song_id, fps), fps.take(m)),
            (song_id as usize, 0i128),
        ) >= m,
    decreases m,
{
    let w = with_fingerprints(postings, song_id, fps);
    let key = (song_id as usize, 0i128);
    if m == 0 {
        assert(fps.take(0) =~= Seq::<Fingerprint>::empty());
    } else {
        lemma_self_match_prefix(postings, song_id, fps, m - 1);
        let q = fps.take(m);
        assert(q.drop_last() =~= fps.take(m - 1));
        assert(q.last() == fps[m - 1]);
        let j = lemma_inserted(postings, song_id, fps, m - 1);
        let found = hits(w, fps[m - 1]);
        assert(found[j] == key);
        lemma_count_positive(found, j);
        lemma_count_concat(collisions(w, fps.take(m - 1)), found, key);
    }
}

/// Self-match saturation: after a song's fingerprints are inserted under id
/// `song_id`, querying those same fingerprints puts at least one collision per
/// fingerprint on `(song_id, 0)`. When the index held no song before, every
/// collision of that query names `song_id`.
pub proof fn lemma_self_match(
    songs: Map<u32, Seq<char>>,
    postings: Map<u64, Seq<(u32, usize)>>,
    song_id: u32,
    fps: Seq<Fingerprint>,
)
    requires
        index_wf(songs, postings, song_id),
    ensures
        count_of(collisions(with_fingerprints(postings, song_id, fps), fps), (song_id as usize, 0i128))
            >= fps.len(),
        songs == Map::<u32, Seq<char>>::empty() ==> forall|k: (usize, i128)|
            #[trigger] count_of(collisions(with_fingerprints(postings, song_id, fps), fps), k) > 0
                ==> k.0 == song_id as usize,
{
    let w = with_fingerprints(postings, song_id, fps);
    let key = (song_id as usize, 0i128);
    lemma_self_match_prefix(postings, song_id, fps, fps.len() as int);
    assert(fps.take(fps.len() as int) =~= fps);
    if songs == Map::<u32, Seq<char>>::empty() {
        assert forall|h: u64, j: int|
            postings.contains_key(h) && 0 <= j < postings[h].len() implies (#[trigger] postings[h][j]).0
            == song_id by {
            assert(songs.contains_key(postings[h][j].0));
        }
        lemma_single_song_postings(postings, song_id, fps);
        assert forall|k: (usize, i128)| #[trigger] count_of(collisions(w, fps), k) > 0 implies k.0
            == song_id as usize by {
            let i = lemma_counted_occurs(collisions(w, fps), k);
            let at = lemma_collision_source(w, fps, i);
            assert(w[at.0][at.1].0 == song_id);
        }
    }
}

} // verus!
