//! Landmark hashing: peaks sorted by time become a stream of packed 64-bit hashes.
use vstd::prelude::*;

use crate::types::{Fingerprint, SpectrogramPoint};

verus! {

/// Number of target peaks paired with each anchor.
pub const TARGET_ZONE_SIZE: usize = 5;

/// Distance, in peaks, from the (last) anchor to the first target.
pub const TARGET_DELAY: usize = 3;

/// Peaks ordered by non-decreasing time index.
pub open spec fn sorted_by_time(peaks: Seq<SpectrogramPoint>) -> bool {
    forall|i: int, j: int| 0 <= i <= j < peaks.len() ==> peaks[i].time_idx <= peaks[j].time_idx
}

/// `f1 << 44 | f2 << 24 | dt`.
pub open spec fn pair_hash(f1: u64, f2: u64, dt: u64) -> u64 {
    (f1 << 44u64) | (f2 << 24u64) | dt
}

/// How many anchors the pair scheme uses on `n` peaks: an anchor needs a full target zone.
pub open spec fn pair_anchor_count(n: int) -> int {
    if n >= TARGET_DELAY + TARGET_ZONE_SIZE {
        n - TARGET_DELAY - TARGET_ZONE_SIZE + 1
    } else {
        0
    }
}

/// The fingerprint of anchor `i` with its `j`-th target.
pub open spec fn pair_fingerprint(peaks: Seq<SpectrogramPoint>, i: int, j: int) -> Fingerprint {
    let anchor = peaks[i];
    let target = peaks[i + TARGET_DELAY + j];
    Fingerprint {
        hash: pair_hash(
            anchor.freq_bin as u64,
            target.freq_bin as u64,
            (target.time_idx - anchor.time_idx) as u64,
        ),
        time_offset: anchor.time_idx,
    }
}

/// The pair scheme's output: anchors in order, each followed by its targets in order.
pub open spec fn pair_fingerprints(peaks: Seq<SpectrogramPoint>) -> Seq<Fingerprint> {
    Seq::new(
        (pair_anchor_count(peaks.len() as int) * TARGET_ZONE_SIZE) as nat,
        |k: int| pair_fingerprint(peaks, k / TARGET_ZONE_SIZE as int, k % TARGET_ZONE_SIZE as int),
    )
}

proof fn lemma_div_mod_step(q: int, r: int, d: int)
    requires
        0 <= q,
        0 <= r < d,
    ensures
        (q * d + r) / d == q,
        (q * d + r) % d == r,
{
    assert((q * d + r) / d == q && (q * d + r) % d == r) by (nonlinear_arith)
        requires
            0 <= q,
            0 <= r < d,
    ;
}

/// Landmark pairs: each anchor is paired with the peaks `TARGET_DELAY ..
/// TARGET_DELAY + TARGET_ZONE_SIZE` places after it, as long as that zone lies
/// inside the peak sequence.
pub fn generate_fingerprints(peaks: &[SpectrogramPoint]) -> (fps: Vec<Fingerprint>)
    requires
        sorted_by_time(peaks@),
    ensures
        fps@ == pair_fingerprints(peaks@),
{
    let n = peaks.len();
    let mut fps: Vec<Fingerprint> = Vec::new();
    let mut i: usize = 0;
    while i < n && n - i >= TARGET_DELAY + TARGET_ZONE_SIZE
        invariant
            n == peaks@.len(),
            sorted_by_time(peaks@),
            i <= pair_anchor_count(n as int),
            fps@.len() == i * TARGET_ZONE_SIZE,
            forall|k: int|
                0 <= k < fps@.len() ==> #[trigger] fps@[k] == pair_fingerprint(
                    peaks@,
                    k / TARGET_ZONE_SIZE as int,
                    k % TARGET_ZONE_SIZE as int,
                ),
        decreases n - i,
    {
        let anchor = peaks[i];
        let mut j: usize = 0;
        while j < TARGET_ZONE_SIZE
            invariant
                n == peaks@.len(),
                sorted_by_time(peaks@),
                i + TARGET_DELAY + TARGET_ZONE_SIZE <= n,
                anchor == peaks@[i as int],
                j <= TARGET_ZONE_SIZE,
                fps@.len() == i * TARGET_ZONE_SIZE + j,
                forall|k: int|
                    0 <= k < fps@.len() ==> #[trigger] fps@[k] == pair_fingerprint(
                        peaks@,
                        k / TARGET_ZONE_SIZE as int,
                        k % TARGET_ZONE_SIZE as int,
                    ),
            decreases TARGET_ZONE_SIZE - j,
        {
            let target = peaks[i + TARGET_DELAY + j];
            let f1 = anchor.freq_bin as u64;
            let f2 = target.freq_bin as u64;
            let dt = (target.time_idx - anchor.time_idx) as u64;
            let hash = (f1 << 44u64) | (f2 << 24u64) | dt;
            proof {
                lemma_div_mod_step(i as int, j as int, TARGET_ZONE_SIZE as int);
            }
            fps.push(Fingerprint { hash, time_offset: anchor.time_idx });
            j = j + 1;
        }
        i = i + 1;
    }
    assert(fps@ =~= pair_fingerprints(peaks@));
    fps
}

/// `a - b`, or 0 where `b > a`.
pub open spec fn saturating_delta(a: usize, b: usize) -> usize {
    if a >= b {
        (a - b) as usize
    } else {
        0
    }
}

/// Layout, most significant first: `f1:9 | f2:9 | f3:9 | f4:9 | dt1:9 | dt2:9 | dt3:10`.
pub open spec fn quad_hash(f1: u64, f2: u64, f3: u64, f4: u64, dt1: u64, dt2: u64, dt3: u64) -> u64 {
    (f1 << 55u64) | (f2 << 46u64) | (f3 << 37u64) | (f4 << 28u64) | (dt1 << 19u64) | (dt2 << 10u64)
        | dt3
}

/// How many first anchors the quad scheme uses on `n` peaks.
pub open spec fn quad_anchor_count(n: int) -> int {
    if n >= 2 + TARGET_DELAY + TARGET_ZONE_SIZE {
        n - 2 - TARGET_DELAY - TARGET_ZONE_SIZE + 1
    } else {
        0
    }
}

/// The quad fingerprint of anchors `i, i + 1, i + 2` with the `j`-th target.
pub open spec fn quad_fingerprint(peaks: Seq<SpectrogramPoint>, i: int, j: int) -> Fingerprint {
    let a1 = peaks[i];
    let a2 = peaks[i + 1];
    let a3 = peaks[i + 2];
    let target = peaks[i + 2 + TARGET_DELAY + j];
    Fingerprint {
        hash: quad_hash(
            (a1.freq_bin as u64) & 0x1FF,
            (a2.freq_bin as u64) & 0x1FF,
            (a3.freq_bin as u64) & 0x1FF,
            (target.freq_bin as u64) & 0x1FF,
            (saturating_delta(a2.time_idx, a1.time_idx) as u64) & 0x1FF,
            (saturating_delta(a3.time_idx, a1.time_idx) as u64) & 0x1FF,
            (saturating_delta(target.time_idx, a1.time_idx) as u64) & 0x3FF,
        ),
        time_offset: a1.time_idx,
    }
}

/// The quad scheme's output: first anchors in order, each followed by its targets in order.
pub open spec fn quad_fingerprints(peaks: Seq<SpectrogramPoint>) -> Seq<Fingerprint> {
    Seq::new(
        (quad_anchor_count(peaks.len() as int) * TARGET_ZONE_SIZE) as nat,
        |k: int| quad_fingerprint(peaks, k / TARGET_ZONE_SIZE as int, k % TARGET_ZONE_SIZE as int),
    )
}

fn delta_of(a: usize, b: usize) -> (r: usize)
    ensures
        r == saturating_delta(a, b),
{
    if a >= b {
        a - b
    } else {
        0
    }
}

/// Landmark quads: three consecutive anchors and each of the `TARGET_ZONE_SIZE`
/// peaks that start `TARGET_DELAY` places after the third anchor.
pub fn generate_fingerprints_quad(peaks: &[SpectrogramPoint]) -> (fps: Vec<Fingerprint>)
    ensures
        fps@ == quad_fingerprints(peaks@),
{
    let n = peaks.len();
    let mut fps: Vec<Fingerprint> = Vec::new();
    let mut i: usize = 0;
    while i < n && n - i >= 2 + TARGET_DELAY + TARGET_ZONE_SIZE
        invariant
            n == peaks@.len(),
            i <= quad_anchor_count(n as int),
            fps@.len() == i * TARGET_ZONE_SIZE,
            forall|k: int|
                0 <= k < fps@.len() ==> #[trigger] fps@[k] == quad_fingerprint(
                    peaks@,
                    k / TARGET_ZONE_SIZE as int,
                    k % TARGET_ZONE_SIZE as int,
                ),
        decreases n - i,
    {
        let a1 = peaks[i];
        let a2 = peaks[i + 1];
        let a3 = peaks[i + 2];
        let f1 = (a1.freq_bin as u64) & 0x1FF;
        let f2 = (a2.freq_bin as u64) & 0x1FF;
        let f3 = (a3.freq_bin as u64) & 0x1FF;
        let dt1 = (delta_of(a2.time_idx, a1.time_idx) as u64) & 0x1FF;
        let dt2 = (delta_of(a3.time_idx, a1.time_idx) as u64) & 0x1FF;
        let target_start = i + 2 + TARGET_DELAY;
        let mut j: usize = 0;
        while j < TARGET_ZONE_SIZE
            invariant
                n == peaks@.len(),
                i + 2 + TARGET_DELAY + TARGET_ZONE_SIZE <= n,
                target_start == i + 2 + TARGET_DELAY,
                a1 == peaks@[i as int],
                a2 == peaks@[i + 1],
                a3 == peaks@[i + 2],
                f1 == (a1.freq_bin as u64) & 0x1FF,
                f2 == (a2.freq_bin as u64) & 0x1FF,
                f3 == (a3.freq_bin as u64) & 0x1FF,
                dt1 == (saturating_delta(a2.time_idx, a1.time_idx) as u64) & 0x1FF,
                dt2 == (saturating_delta(a3.time_idx, a1.time_idx) as u64) & 0x1FF,
                j <= TARGET_ZONE_SIZE,
                fps@.len() == i * TARGET_ZONE_SIZE + j,
                forall|k: int|
                    0 <= k < fps@.len() ==> #[trigger] fps@[k] == quad_fingerprint(
                        peaks@,
                        k / TARGET_ZONE_SIZE as int,
                        k % TARGET_ZONE_SIZE as int,
                    ),
            decreases TARGET_ZONE_SIZE - j,
        {
            let target = peaks[target_start + j];
            let f4 = (target.freq_bin as u64) & 0x1FF;
            let dt3 = (delta_of(target.time_idx, a1.time_idx) as u64) & 0x3FF;
            let hash = (f1 << 55u64) | (f2 << 46u64) | (f3 << 37u64) | (f4 << 28u64) | (dt1 << 19u64)
                | (dt2 << 10u64) | dt3;
            proof {
                lemma_div_mod_step(i as int, j as int, TARGET_ZONE_SIZE as int);
            }
            fps.push(Fingerprint { hash, time_offset: a1.time_idx });
            j = j + 1;
        }
        i = i + 1;
    }
    assert(fps@ =~= quad_fingerprints(peaks@));
    fps
}

/// `v + d` clamped at 0, reduced modulo `m`.
pub open spec fn fuzzed(v: int, d: int, m: int) -> u64 {
    ((if v + d < 0 {
        0
    } else {
        v + d
    }) % m) as u64
}

/// The quad hash of quad `q` (anchor `q / TARGET_ZONE_SIZE`, target `q %
/// TARGET_ZONE_SIZE`) with its target frequency moved by `v / 3 - 1` and its
/// target time delta moved by `v % 3 - 1`.
pub open spec fn fuzzy_fingerprint(peaks: Seq<SpectrogramPoint>, q: int, v: int) -> Fingerprint {
    let i = q / TARGET_ZONE_SIZE as int;
    let j = q % TARGET_ZONE_SIZE as int;
    let a1 = peaks[i];
    let a2 = peaks[i + 1];
    let a3 = peaks[i + 2];
    let target = peaks[i + 2 + TARGET_DELAY + j];
    Fingerprint {
        hash: quad_hash(
            (a1.freq_bin as u64) & 0x1FF,
            (a2.freq_bin as u64) & 0x1FF,
            (a3.freq_bin as u64) & 0x1FF,
            fuzzed(target.freq_bin as int, v / 3 - 1, 512),
            (saturating_delta(a2.time_idx, a1.time_idx) as u64) & 0x1FF,
            (saturating_delta(a3.time_idx, a1.time_idx) as u64) & 0x1FF,
            fuzzed(saturating_delta(target.time_idx, a1.time_idx) as int, v % 3 - 1, 1024),
        ),
        time_offset: a1.time_idx,
    }
}

/// Nine variants for each quad of the quad scheme, in the order of its quads.
pub open spec fn fuzzy_query_fingerprints(peaks: Seq<SpectrogramPoint>) -> Seq<Fingerprint> {
    Seq::new(
        (quad_anchor_count(peaks.len() as int) * TARGET_ZONE_SIZE * 9) as nat,
        |k: int| fuzzy_fingerprint(peaks, k / 9, k % 9),
    )
}

fn fuzz(v: usize, step: usize, modulus: i128) -> (r: u64)
    requires
        step < 3,
        0 < modulus <= 1024,
    ensures
        r == fuzzed(v as int, step - 1, modulus as int),
{
    let moved: i128 = v as i128 + step as i128 - 1;
    let clamped: i128 = if moved < 0 {
        0
    } else {
        moved
    };
    (clamped % modulus) as u64
}

/// The quad scheme for queries: every quad hash is emitted in nine variants,
/// over a 3x3 grid of target frequency and target time delta offsets in
/// `{-1, 0, +1}`, each clamped at 0 and masked again.
pub fn generate_fuzzy_query_hashes(peaks: &[SpectrogramPoint]) -> (fps: Vec<Fingerprint>)
    ensures
        fps@ == fuzzy_query_fingerprints(peaks@),
{
    let n = peaks.len();
    let mut fps: Vec<Fingerprint> = Vec::new();
    let mut i: usize = 0;
    while i < n && n - i >= 2 + TARGET_DELAY + TARGET_ZONE_SIZE
        invariant
            n == peaks@.len(),
            i <= quad_anchor_count(n as int),
            fps@.len() == i * TARGET_ZONE_SIZE * 9,
            forall|k: int|
                0 <= k < fps@.len() ==> #[trigger] fps@[k] == fuzzy_fingerprint(peaks@, k / 9, k % 9),
        decreases n - i,
    {
        let a1 = peaks[i];
        let a2 = peaks[i + 1];
        let a3 = peaks[i + 2];
        let f1 = (a1.freq_bin as u64) & 0x1FF;
        let f2 = (a2.freq_bin as u64) & 0x1FF;
        let f3 = (a3.freq_bin as u64) & 0x1FF;
        let dt1 = (delta_of(a2.time_idx, a1.time_idx) as u64) & 0x1FF;
        let dt2 = (delta_of(a3.time_idx, a1.time_idx) as u64) & 0x1FF;
        let target_start = i + 2 + TARGET_DELAY;
        let mut j: usize = 0;
        while j < TARGET_ZONE_SIZE
            invariant
                n == peaks@.len(),
                i + 2 + TARGET_DELAY + TARGET_ZONE_SIZE <= n,
                target_start == i + 2 + TARGET_DELAY,
                a1 == peaks@[i as int],
                a2 == peaks@[i + 1],
                a3 == peaks@[i + 2],
                f1 == (a1.freq_bin as u64) & 0x1FF,
                f2 == (a2.freq_bin as u64) & 0x1FF,
                f3 == (a3.freq_bin as u64) & 0x1FF,
                dt1 == (saturating_delta(a2.time_idx, a1.time_idx) as u64) & 0x1FF,
                dt2 == (saturating_delta(a3.time_idx, a1.time_idx) as u64) & 0x1FF,
                j <= TARGET_ZONE_SIZE,
                fps@.len() == (i * TARGET_ZONE_SIZE + j) * 9,
                forall|k: int|
                    0 <= k < fps@.len() ==> #[trigger] fps@[k] == fuzzy_fingerprint(
                        peaks@,
                        k / 9,
                        k % 9,
                    ),
            decreases TARGET_ZONE_SIZE - j,
        {
            let target = peaks[target_start + j];
            let exact_dt3 = delta_of(target.time_idx, a1.time_idx);
            let ghost q = i * TARGET_ZONE_SIZE + j;
            proof {
                lemma_div_mod_step(i as int, j as int, TARGET_ZONE_SIZE as int);
            }
            let mut a: usize = 0;
            while a < 3
                invariant
                    n == peaks@.len(),
                    i + 2 + TARGET_DELAY + TARGET_ZONE_SIZE <= n,
                    j < TARGET_ZONE_SIZE,
                    q == i * TARGET_ZONE_SIZE + j,
                    q / TARGET_ZONE_SIZE as int == i,
                    q % TARGET_ZONE_SIZE as int == j,
                    a1 == peaks@[i as int],
                    a2 == peaks@[i + 1],
                    a3 == peaks@[i + 2],
                    target == peaks@[i + 2 + TARGET_DELAY + j],
                    exact_dt3 == saturating_delta(target.time_idx, a1.time_idx),
                    f1 == (a1.freq_bin as u64) & 0x1FF,
                    f2 == (a2.freq_bin as u64) & 0x1FF,
                    f3 == (a3.freq_bin as u64) & 0x1FF,
                    dt1 == (saturating_delta(a2.time_idx, a1.time_idx) as u64) & 0x1FF,
                    dt2 == (saturating_delta(a3.time_idx, a1.time_idx) as u64) & 0x1FF,
                    a <= 3,
                    fps@.len() == q * 9 + a * 3,
                    forall|k: int|
                        0 <= k < fps@.len() ==> #[trigger] fps@[k] == fuzzy_fingerprint(
                            peaks@,
                            k / 9,
                            k % 9,
                        ),
                decreases 3 - a,
            {
                let f4 = fuzz(target.freq_bin, a, 512);
                let mut b: usize = 0;
                while b < 3
                    invariant
                        n == peaks@.len(),
                        i + 2 + TARGET_DELAY + TARGET_ZONE_SIZE <= n,
                        q == i * TARGET_ZONE_SIZE + j,
                        q / TARGET_ZONE_SIZE as int == i,
                        q % TARGET_ZONE_SIZE as int == j,
                        0 <= q,
                        a1 == peaks@[i as int],
                        a2 == peaks@[i + 1],
                        a3 == peaks@[i + 2],
                        target == peaks@[i + 2 + TARGET_DELAY + j],
                        exact_dt3 == saturating_delta(target.time_idx, a1.time_idx),
                        f1 == (a1.freq_bin as u64) & 0x1FF,
                        f2 == (a2.freq_bin as u64) & 0x1FF,
                        f3 == (a3.freq_bin as u64) & 0x1FF,
                        f4 == fuzzed(target.freq_bin as int, a - 1, 512),
                        dt1 == (saturating_delta(a2.time_idx, a1.time_idx) as u64) & 0x1FF,
                        dt2 == (saturating_delta(a3.time_idx, a1.time_idx) as u64) & 0x1FF,
                        a < 3,
                        b <= 3,
                        fps@.len() == q * 9 + a * 3 + b,
                        forall|k: int|
                            0 <= k < fps@.len() ==> #[trigger] fps@[k] == fuzzy_fingerprint(
                                peaks@,
                                k / 9,
                                k % 9,
                            ),
                    decreases 3 - b,
                {
                    let dt3 = fuzz(exact_dt3, b, 1024);
                    let hash = (f1 << 55u64) | (f2 << 46u64) | (f3 << 37u64) | (f4 << 28u64) | (dt1
                        << 19u64) | (dt2 << 10u64) | dt3;
                    proof {
                        lemma_div_mod_step(a as int, b as int, 3);
                        lemma_div_mod_step(q, a * 3 + b, 9);
                    }
                    fps.push(Fingerprint { hash, time_offset: a1.time_idx });
                    b = b + 1;
                }
                a = a + 1;
            }
            j = j + 1;
        }
        i = i + 1;
    }
    assert(fps@ =~= fuzzy_query_fingerprints(peaks@));
    fps
}

/// Whether the peaks are in time order, as the pair scheme needs them.
pub fn is_sorted_by_time(peaks: &[SpectrogramPoint]) -> (r: bool)
    ensures
        r == sorted_by_time(peaks@),
{
    let mut i: usize = 1;
    while i < peaks.len()
        invariant
            1 <= i,
            i <= peaks@.len() || peaks@.len() == 0,
            forall|a: int, b: int| 0 <= a <= b < i && b < peaks@.len() ==> peaks@[a].time_idx <= peaks@[b].time_idx,
        decreases peaks@.len() - i,
    {
        if peaks[i - 1].time_idx > peaks[i].time_idx {
            return false;
        }
        assert forall|a: int, b: int| 0 <= a <= b < i + 1 && b < peaks@.len() implies peaks@[a].time_idx
            <= peaks@[b].time_idx by {
            if b == i && a < i {
                assert(peaks@[a].time_idx <= peaks@[i - 1].time_idx);
            }
        }
        i = i + 1;
    }
    true
}

/// The two landmark packings. An index is built with one scheme and queried
/// with the same one; fuzzing applies to quad queries only.
#[derive(Clone, Copy, Debug, PartialEq, Eq)]
pub enum HashScheme {
    Pair,
    Quad,
}

impl HashScheme {
    /// What ingestion stores for these peaks.
    pub open spec fn index_fingerprints_of(self, peaks: Seq<SpectrogramPoint>) -> Seq<Fingerprint> {
        match self {
            HashScheme::Pair => pair_fingerprints(peaks),
            HashScheme::Quad => quad_fingerprints(peaks),
        }
    }

    /// What a query looks up for these peaks.
    pub open spec fn query_fingerprints_of(self, peaks: Seq<SpectrogramPoint>, fuzzy: bool) -> Seq<
        Fingerprint,
    > {
        match self {
            HashScheme::Pair => pair_fingerprints(peaks),
            HashScheme::Quad => if fuzzy {
                fuzzy_query_fingerprints(peaks)
            } else {
                quad_fingerprints(peaks)
            },
        }
    }

    pub fn index_fingerprints(&self, peaks: &[SpectrogramPoint]) -> (fps: Vec<Fingerprint>)
        requires
            *self == HashScheme::Pair ==> sorted_by_time(peaks@),
        ensures
            fps@ == self.index_fingerprints_of(peaks@),
    {
        match self {
            HashScheme::Pair => generate_fingerprints(peaks),
            HashScheme::Quad => generate_fingerprints_quad(peaks),
        }
    }

    /// Query fingerprints; `fuzzy` asks for the nine variants of each quad.
    pub fn query_fingerprints(&self, peaks: &[SpectrogramPoint], fuzzy: bool) -> (fps: Vec<Fingerprint>)
        requires
            *self == HashScheme::Pair ==> sorted_by_time(peaks@),
        ensures
            fps@ == self.query_fingerprints_of(peaks@, fuzzy),
    {
        match self {
            HashScheme::Pair => generate_fingerprints(peaks),
            HashScheme::Quad => if fuzzy {
                generate_fuzzy_query_hashes(peaks)
            } else {
                generate_fingerprints_quad(peaks)
            },
        }
    }
}

} // verus!
