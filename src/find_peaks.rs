//! Peak picking: per time column, the strongest bin of each of six
//! logarithmic bands is a candidate, and the candidates above an adaptive
//! threshold become constellation points.
//!
//! Magnitudes arrive as IEEE-754 `f32` bit patterns. They are compared by the
//! value they encode, with NaN below every other value; the running statistics
//! that produce the threshold live with the caller.
use vstd::prelude::*;

use crate::types::SpectrogramPoint;

verus! {

/// Frequency bins per spectrum column (half the analysis window).
pub const HALF_WINDOW: usize = 512;

/// Number of frequency bands of a column.
pub const BAND_COUNT: usize = 6;

/// First bin of band `b`: bands are `[0,10) [10,20) [20,40) [40,80) [80,160) [160,512)`.
pub open spec fn band_start(b: int) -> int {
    if b <= 0 {
        0
    } else if b == 1 {
        10
    } else if b == 2 {
        20
    } else if b == 3 {
        40
    } else if b == 4 {
        80
    } else {
        160
    }
}

/// One past the last bin of band `b`.
pub open spec fn band_end(b: int) -> int {
    if b >= 5 {
        HALF_WINDOW as int
    } else {
        band_start(b + 1)
    }
}

/// The band that bin `bin` falls in.
pub open spec fn band_of(bin: int) -> int {
    if bin < 10 {
        0
    } else if bin < 20 {
        1
    } else if bin < 40 {
        2
    } else if bin < 80 {
        3
    } else if bin < 160 {
        4
    } else {
        5
    }
}

/// The bit pattern encodes a NaN.
pub open spec fn is_nan_bits(bits: u32) -> bool {
    (bits & 0x7F80_0000u32) == 0x7F80_0000u32 && (bits & 0x007F_FFFFu32) != 0
}

/// A rank that orders bit patterns as the values they encode: `-0.0` and
/// `+0.0` tie, and NaN ranks below negative infinity.
pub open spec fn float_rank(bits: u32) -> int {
    if is_nan_bits(bits) {
        -0x8000_0000
    } else if (bits & 0x8000_0000u32) == 0 {
        (bits & 0x7FFF_FFFFu32) as int
    } else {
        -((bits & 0x7FFF_FFFFu32) as int)
    }
}

/// `a > b` on the values the bit patterns encode; false when either is NaN.
pub open spec fn float_gt(a: u32, b: u32) -> bool {
    !is_nan_bits(a) && !is_nan_bits(b) && float_rank(a) > float_rank(b)
}

/// `bin` is the last bin of `[start, end)` whose magnitude ranks highest.
pub open spec fn is_band_argmax(column: Seq<u32>, start: int, end: int, bin: int) -> bool {
    &&& start <= bin < end
    &&& forall|j: int| start <= j < end ==> float_rank(#[trigger] column[j]) <= float_rank(column[bin])
    &&& forall|j: int| bin < j < end ==> float_rank(#[trigger] column[j]) < float_rank(column[bin])
}

/// The six band candidates of a column at time `time_idx`, in band order.
pub open spec fn are_band_maxima(column: Seq<u32>, time_idx: usize, cands: Seq<SpectrogramPoint>) -> bool {
    &&& cands.len() == BAND_COUNT
    &&& forall|b: int|
        0 <= b < BAND_COUNT ==> {
            let p = #[trigger] cands[b];
            &&& is_band_argmax(column, band_start(b), band_end(b), p.freq_bin as int)
            &&& p.magnitude_bits == column[p.freq_bin as int]
            &&& p.time_idx == time_idx
        }
}

/// The candidates whose magnitude exceeds the threshold, in order.
pub open spec fn above(cands: Seq<SpectrogramPoint>, threshold_bits: u32) -> Seq<SpectrogramPoint>
    decreases cands.len(),
{
    if cands.len() == 0 {
        cands
    } else if float_gt(cands.last().magnitude_bits, threshold_bits) {
        above(cands.drop_last(), threshold_bits).push(cands.last())
    } else {
        above(cands.drop_last(), threshold_bits)
    }
}

fn float_rank_of(bits: u32) -> (r: i64)
    ensures
        r == float_rank(bits),
{
    if (bits & 0x7F80_0000u32) == 0x7F80_0000u32 && (bits & 0x007F_FFFFu32) != 0 {
        -0x8000_0000
    } else if (bits & 0x8000_0000u32) == 0 {
        (bits & 0x7FFF_FFFFu32) as i64
    } else {
        -((bits & 0x7FFF_FFFFu32) as i64)
    }
}

/// `a > b` on the `f32` values of the two bit patterns.
pub fn float_greater(a: u32, b: u32) -> (r: bool)
    ensures
        r == float_gt(a, b),
{
    let nan_a = (a & 0x7F80_0000u32) == 0x7F80_0000u32 && (a & 0x007F_FFFFu32) != 0;
    let nan_b = (b & 0x7F80_0000u32) == 0x7F80_0000u32 && (b & 0x007F_FFFFu32) != 0;
    !nan_a && !nan_b && float_rank_of(a) > float_rank_of(b)
}

fn band_bounds(b: usize) -> (r: (usize, usize))
    requires
        b < BAND_COUNT,
    ensures
        r.0 == band_start(b as int),
        r.1 == band_end(b as int),
{
    if b == 0 {
        (0, 10)
    } else if b == 1 {
        (10, 20)
    } else if b == 2 {
        (20, 40)
    } else if b == 3 {
        (40, 80)
    } else if b == 4 {
        (80, 160)
    } else {
        (160, HALF_WINDOW)
    }
}

/// The last bin of `[start, end)` with the highest-ranked magnitude.
fn band_argmax(column: &[u32], start: usize, end: usize) -> (bin: usize)
    requires
        start < end <= column@.len(),
    ensures
        is_band_argmax(column@, start as int, end as int, bin as int),
{
    let mut bin = start;
    let mut best = float_rank_of(column[start]);
    let mut i = start + 1;
    while i < end
        invariant
            start <= bin < i <= end <= column@.len(),
            best == float_rank(column@[bin as int]),
            forall|j: int| start <= j < i ==> float_rank(#[trigger] column@[j]) <= best,
            forall|j: int| bin < j < i ==> float_rank(#[trigger] column@[j]) < best,
        decreases end - i,
    {
        let r = float_rank_of(column[i]);
        if r >= best {
            bin = i;
            best = r;
        }
        i = i + 1;
    }
    bin
}

/// The band candidates of one spectrum column: for each band, its strongest
/// bin (the last one on ties), with that bin's magnitude, at `time_idx`.
pub fn band_maxima(column: &[u32], time_idx: usize) -> (cands: Vec<SpectrogramPoint>)
    requires
        column@.len() >= HALF_WINDOW,
    ensures
        are_band_maxima(column@, time_idx, cands@),
{
    let mut cands: Vec<SpectrogramPoint> = Vec::new();
    let mut b: usize = 0;
    while b < BAND_COUNT
        invariant
            b <= BAND_COUNT,
            column@.len() >= HALF_WINDOW,
            cands@.len() == b,
            forall|c: int|
                0 <= c < b ==> {
                    let p = #[trigger] cands@[c];
                    &&& is_band_argmax(column@, band_start(c), band_end(c), p.freq_bin as int)
                    &&& p.magnitude_bits == column@[p.freq_bin as int]
                    &&& p.time_idx == time_idx
                },
        decreases BAND_COUNT - b,
    {
        let (start, end) = band_bounds(b);
        let bin = band_argmax(column, start, end);
        cands.push(SpectrogramPoint { freq_bin: bin, magnitude_bits: column[bin], time_idx });
        b = b + 1;
    }
    cands
}

/// The candidates whose magnitude is strictly greater than the threshold
/// (both as `f32` bit patterns), in their order.
pub fn select_above(cands: &Vec<SpectrogramPoint>, threshold_bits: u32) -> (peaks: Vec<SpectrogramPoint>)
    ensures
        peaks@ == above(cands@, threshold_bits),
{
    let mut peaks: Vec<SpectrogramPoint> = Vec::new();
    let mut i: usize = 0;
    while i < cands.len()
        invariant
            i <= cands@.len(),
            peaks@ == above(cands@.take(i as int), threshold_bits),
        decreases cands@.len() - i,
    {
        let p = cands[i];
        assert(cands@.take(i + 1).drop_last() =~= cands@.take(i as int));
        if float_greater(p.magnitude_bits, threshold_bits) {
            peaks.push(p);
        }
        i = i + 1;
    }
    assert(cands@.take(cands@.len() as int) =~= cands@);
    peaks
}

/// Peaks in time order, and within one time column in ascending band order.
pub open spec fn column_band_order(peaks: Seq<SpectrogramPoint>) -> bool {
    forall|i: int, j: int|
        0 <= i < j < peaks.len() ==> {
            ||| (#[trigger] peaks[i]).time_idx < (#[trigger] peaks[j]).time_idx
            ||| peaks[i].time_idx == peaks[j].time_idx && band_of(peaks[i].freq_bin as int) < band_of(
                peaks[j].freq_bin as int,
            )
        }
}

/// Band coverage: peaks in column-and-band order hold at most one peak per
/// `(band, time column)` pair, and are sorted by time.
pub proof fn lemma_one_peak_per_band_and_column(peaks: Seq<SpectrogramPoint>)
    requires
        column_band_order(peaks),
    ensures
        forall|i: int, j: int|
            0 <= i < peaks.len() && 0 <= j < peaks.len() && i != j ==> !(
            #[trigger] peaks[i].time_idx == #[trigger] peaks[j].time_idx && band_of(
                peaks[i].freq_bin as int,
            ) == band_of(peaks[j].freq_bin as int)),
        crate::generate_fingerprints::sorted_by_time(peaks),
{
    assert forall|i: int, j: int|
        0 <= i < peaks.len() && 0 <= j < peaks.len() && i != j implies !(
        #[trigger] peaks[i].time_idx == #[trigger] peaks[j].time_idx && band_of(
            peaks[i].freq_bin as int,
        ) == band_of(peaks[j].freq_bin as int)) by {}
    assert forall|i: int, j: int| 0 <= i <= j < peaks.len() implies (#[trigger] peaks[i]).time_idx
        <= (#[trigger] peaks[j]).time_idx by {}
}

proof fn lemma_above_ordered(cands: Seq<SpectrogramPoint>, threshold_bits: u32)
    requires
        column_band_order(cands),
    ensures
        column_band_order(above(cands, threshold_bits)),
        forall|k: int|
            0 <= k < above(cands, threshold_bits).len() ==> cands.contains(
                #[trigger] above(cands, threshold_bits)[k],
            ),
    decreases cands.len(),
{
    if cands.len() > 0 {
        let init = cands.drop_last();
        assert(column_band_order(init)) by {
            assert forall|i: int, j: int| 0 <= i < j < init.len() implies {
                ||| (#[trigger] init[i]).time_idx < (#[trigger] init[j]).time_idx
                ||| init[i].time_idx == init[j].time_idx && band_of(init[i].freq_bin as int)
                    < band_of(init[j].freq_bin as int)
            } by {
                assert(init[i] == cands[i] && init[j] == cands[j]);
            }
        }
        lemma_above_ordered(init, threshold_bits);
        let sub = above(init, threshold_bits);
        assert forall|k: int| 0 <= k < sub.len() implies cands.contains(#[trigger] sub[k]) by {
            let a = choose|a: int| 0 <= a < init.len() && init[a] == sub[k];
            assert(cands[a] == sub[k]);
        }
        if float_gt(cands.last().magnitude_bits, threshold_bits) {
            let r = sub.push(cands.last());
            assert forall|i: int, j: int| 0 <= i < j < r.len() implies {
                ||| (#[trigger] r[i]).time_idx < (#[trigger] r[j]).time_idx
                ||| r[i].time_idx == r[j].time_idx && band_of(r[i].freq_bin as int) < band_of(
                    r[j].freq_bin as int,
                )
            } by {
                if j == r.len() - 1 {
                    let a = choose|a: int| 0 <= a < init.len() && init[a] == sub[i];
                    assert(cands[a] == r[i]);
                    assert(cands[cands.len() - 1] == r[j]);
                } else {
                    assert(r[i] == sub[i] && r[j] == sub[j]);
                }
            }
            assert forall|k: int| 0 <= k < r.len() implies cands.contains(#[trigger] r[k]) by {
                if k < sub.len() {
                    assert(r[k] == sub[k]);
                } else {
                    assert(r[k] == cands[cands.len() - 1]);
                }
            }
        }
    }
}

/// The peak picker's state over a stream of spectrum columns. For each
/// column, `begin_column` hands out the band maxima to feed the running
/// statistics; `finish_column` takes the threshold computed after that and
/// keeps the candidates above it.
pub struct PeakPicker {
    peaks: Vec<SpectrogramPoint>,
    column: usize,
    pending: Vec<SpectrogramPoint>,
}

impl PeakPicker {
    /// Peaks kept so far.
    pub closed spec fn kept(&self) -> Seq<SpectrogramPoint> {
        self.peaks@
    }

    /// Time index of the current column.
    pub closed spec fn column_index(&self) -> usize {
        self.column
    }

    /// Candidates of the current column that wait for their threshold.
    pub closed spec fn candidates(&self) -> Seq<SpectrogramPoint> {
        self.pending@
    }

    pub open spec fn wf(&self) -> bool {
        &&& column_band_order(self.kept())
        &&& forall|k: int|
            0 <= k < self.kept().len() ==> (#[trigger] self.kept()[k]).time_idx < self.column_index()
        &&& self.candidates().len() == 0 || {
            &&& self.candidates().len() == BAND_COUNT
            &&& forall|b: int|
                0 <= b < BAND_COUNT ==> {
                    &&& band_of((#[trigger] self.candidates()[b]).freq_bin as int) == b
                    &&& self.candidates()[b].time_idx == self.column_index()
                }
        }
    }

    #[verifier::type_invariant]
    closed spec fn inv(&self) -> bool {
        self.wf()
    }

    /// A picker at time column 0, with no peaks.
    pub fn new() -> (r: Self)
        ensures
            r.wf(),
            r.kept() == Seq::<SpectrogramPoint>::empty(),
            r.column_index() == 0,
            r.candidates() == Seq::<SpectrogramPoint>::empty(),
    {
        PeakPicker { peaks: Vec::new(), column: 0, pending: Vec::new() }
    }

    /// Time index of the current column.
    pub fn current_column(&self) -> (r: usize)
        ensures
            r == self.column_index(),
    {
        self.column
    }

    /// Whether the current column's candidates wait for their threshold.
    pub fn awaiting_threshold(&self) -> (r: bool)
        ensures
            r == (self.candidates().len() > 0),
    {
        self.pending.len() > 0
    }

    /// Takes the next spectrum column (magnitudes as `f32` bit patterns) and
    /// returns the magnitudes of its six band maxima, in band order, for the
    /// running statistics.
    pub fn begin_column(&mut self, spectrum_column: &[u32]) -> (magnitudes: Vec<u32>)
        requires
            old(self).candidates().len() == 0,
            spectrum_column@.len() >= HALF_WINDOW,
        ensures
            final(self).wf(),
            final(self).kept() == old(self).kept(),
            final(self).column_index() == old(self).column_index(),
            are_band_maxima(spectrum_column@, old(self).column_index(), final(self).candidates()),
            magnitudes@.len() == BAND_COUNT,
            forall|b: int|
                0 <= b < BAND_COUNT ==> #[trigger] magnitudes@[b] == final(self).candidates()[b].magnitude_bits,
    {
        proof {
            use_type_invariant(&*self);
        }
        let cands = band_maxima(spectrum_column, self.column);
        let mut magnitudes: Vec<u32> = Vec::new();
        let mut b: usize = 0;
        while b < cands.len()
            invariant
                b <= cands@.len(),
                magnitudes@.len() == b,
                forall|c: int| 0 <= c < b ==> #[trigger] magnitudes@[c] == cands@[c].magnitude_bits,
            decreases cands@.len() - b,
        {
            magnitudes.push(cands[b].magnitude_bits);
            b = b + 1;
        }
        assert forall|c: int| 0 <= c < BAND_COUNT implies band_of((#[trigger] cands@[c]).freq_bin as int)
            == c by {
            assert(is_band_argmax(spectrum_column@, band_start(c), band_end(c), cands@[c].freq_bin as int));
        }
        self.pending = cands;
        magnitudes
    }

    /// Keeps the current column's candidates whose magnitude exceeds
    /// `threshold_bits` (both as `f32` bit patterns) and moves to the next column.
    pub fn finish_column(&mut self, threshold_bits: u32)
        requires
            old(self).candidates().len() > 0,
            old(self).column_index() < usize::MAX,
        ensures
            final(self).wf(),
            final(self).kept() == old(self).kept() + above(old(self).candidates(), threshold_bits),
            final(self).column_index() == old(self).column_index() + 1,
            final(self).candidates().len() == 0,
    {
        let mut taken = PeakPicker::new();
        std::mem::swap(self, &mut taken);
        proof {
            use_type_invariant(&taken);
        }
        let PeakPicker { mut peaks, column, pending } = taken;
        let ghost cands = pending@;
        let ghost before = peaks@;
        assert(column_band_order(cands)) by {
            assert forall|i: int, j: int| 0 <= i < j < cands.len() implies {
                ||| (#[trigger] cands[i]).time_idx < (#[trigger] cands[j]).time_idx
                ||| cands[i].time_idx == cands[j].time_idx && band_of(cands[i].freq_bin as int)
                    < band_of(cands[j].freq_bin as int)
            } by {
                assert(band_of(cands[i].freq_bin as int) == i);
                assert(band_of(cands[j].freq_bin as int) == j);
            }
        }
        proof {
            lemma_above_ordered(cands, threshold_bits);
        }
        let chosen = select_above(&pending, threshold_bits);
        let mut i: usize = 0;
        while i < chosen.len()
            invariant
                i <= chosen@.len(),
                peaks@ == before + chosen@.take(i as int),
            decreases chosen@.len() - i,
        {
            peaks.push(chosen[i]);
            assert(chosen@.take(i + 1) =~= chosen@.take(i as int).push(chosen@[i as int]));
            assert(peaks@ =~= before + chosen@.take(i + 1));
            i = i + 1;
        }
        assert(chosen@.take(chosen@.len() as int) =~= chosen@);
        let ghost added = chosen@;
        assert forall|k: int| 0 <= k < added.len() implies (#[trigger] added[k]).time_idx == column by {
            assert(cands.contains(added[k]));
            let b = choose|b: int| 0 <= b < cands.len() && cands[b] == added[k];
            assert(cands[b].time_idx == column);
        }
        let ghost all = peaks@;
        assert forall|i: int, j: int| 0 <= i < j < all.len() implies {
            ||| (#[trigger] all[i]).time_idx < (#[trigger] all[j]).time_idx
            ||| all[i].time_idx == all[j].time_idx && band_of(all[i].freq_bin as int) < band_of(
                all[j].freq_bin as int,
            )
        } by {
            if j < before.len() {
                assert(all[i] == before[i] && all[j] == before[j]);
            } else if i < before.len() {
                assert(all[i] == before[i]);
                assert(all[j] == added[j - before.len()]);
            } else {
                assert(all[i] == added[i - before.len()]);
                assert(all[j] == added[j - before.len()]);
            }
        }
        assert forall|k: int| 0 <= k < all.len() implies (#[trigger] all[k]).time_idx < column
            + 1 by {
            if k < before.len() {
                assert(all[k] == before[k]);
            } else {
                assert(all[k] == added[k - before.len()]);
            }
        }
        let no_candidates: Vec<SpectrogramPoint> = Vec::new();
        assert(no_candidates@.len() == 0);
        *self = PeakPicker { peaks, column: column + 1, pending: no_candidates };
    }

    /// The peaks picked over all finished columns.
    pub fn into_peaks(self) -> (peaks: Vec<SpectrogramPoint>)
        ensures
            peaks@ == self.kept(),
            column_band_order(peaks@),
    {
        proof {
            use_type_invariant(&self);
        }
        self.peaks
    }
}

} // verus!
