//! The values that flow through the fingerprint pipeline.
use vstd::prelude::*;

verus! {

/// One spectral peak: a frequency bin and the analysis window it was found in.
/// The magnitude is carried as the IEEE-754 bit pattern of an `f32`.
#[derive(Clone, Copy, Debug, PartialEq, Eq)]
pub struct SpectrogramPoint {
    pub freq_bin: usize,
    pub magnitude_bits: u32,
    pub time_idx: usize,
}

/// One hash occurrence, anchored at the time index of its first peak.
#[derive(Clone, Copy, Debug, PartialEq, Eq, Hash)]
pub struct Fingerprint {
    pub hash: u64,
    pub time_offset: usize,
}

/// A small fixed-capacity list of `(frequency, time delta)` targets of one anchor.
#[derive(Hash)]
pub struct Constellation {
    pub arr: [(usize, usize); 5],
    pub top: usize,
}

impl Constellation {
    /// The targets pushed so far, in push order.
    pub open spec fn targets(&self) -> Seq<(usize, usize)> {
        self.arr@.take(self.top as int)
    }

    pub open spec fn wf(&self) -> bool {
        self.top <= 5
    }

    pub fn new() -> (r: Self)
        ensures
            r.wf(),
            r.top == 0,
            r.targets() == Seq::<(usize, usize)>::empty(),
    {
        let r = Constellation { arr: [(0, 0); 5], top: 0 };
        assert(r.targets() =~= Seq::<(usize, usize)>::empty());
        r
    }

    pub fn push(&mut self, freq: usize, delta: usize)
        requires
            old(self).top < 5,
        ensures
            final(self).wf(),
            final(self).top == old(self).top + 1,
            final(self).targets() == old(self).targets().push((freq, delta)),
    {
        let ghost before = self.targets();
        self.arr[self.top] = (freq, delta);
        self.top = self.top + 1;
        assert(self.targets() =~= before.push((freq, delta)));
    }
}

} // verus!
