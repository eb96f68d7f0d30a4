//! Framing of the short-time analysis: which samples each spectrum column covers.
use vstd::prelude::*;

verus! {

/// Sample rate, in Hz, that all audio is resampled to before analysis.
pub const TARGET_RATE: u32 = 11025;

/// Samples per analysis window.
pub const WINDOW_SIZE: usize = 1024;

/// Samples between the starts of consecutive windows (50% overlap).
pub const HOP: usize = 512;

/// Number of whole windows in `n` samples.
pub open spec fn frame_count(n: int) -> int {
    if n >= WINDOW_SIZE {
        (n - WINDOW_SIZE) / HOP as int + 1
    } else {
        0
    }
}

/// The first sample of every whole window: column `x` covers samples
/// `[x * HOP, x * HOP + WINDOW_SIZE)`.
pub fn frame_starts(n_samples: usize) -> (starts: Vec<usize>)
    ensures
        starts@.len() == frame_count(n_samples as int),
        forall|x: int| 0 <= x < starts@.len() ==> #[trigger] starts@[x] == x * HOP,
        forall|x: int| 0 <= x < starts@.len() ==> #[trigger] starts@[x] + WINDOW_SIZE <= n_samples,
{
    let mut starts: Vec<usize> = Vec::new();
    let mut start: usize = 0;
    while start <= n_samples && n_samples - start >= WINDOW_SIZE
        invariant
            start == starts@.len() * HOP,
            start <= n_samples + HOP,
            starts@.len() <= frame_count(n_samples as int),
            forall|x: int| 0 <= x < starts@.len() ==> #[trigger] starts@[x] == x * HOP,
            forall|x: int| 0 <= x < starts@.len() ==> #[trigger] starts@[x] + WINDOW_SIZE <= n_samples,
        decreases n_samples + HOP - start,
    {
        starts.push(start);
        start = start + HOP;
    }
    starts
}

} // verus!
