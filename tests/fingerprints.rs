use audio_fingerprint::generate_fingerprints::{
    generate_fingerprints, generate_fingerprints_quad, generate_fuzzy_query_hashes,
    is_sorted_by_time, HashScheme,
};
use audio_fingerprint::types::{Constellation, Fingerprint, SpectrogramPoint};

fn ramp(n: usize) -> Vec<SpectrogramPoint> {
    (0..n)
        .map(|k| SpectrogramPoint { freq_bin: k + 1, magnitude_bits: 0, time_idx: k })
        .collect()
}

#[test]
fn pair_scheme_packs_anchor_target_and_delta() {
    let fps = generate_fingerprints(&ramp(8));
    assert_eq!(fps.len(), 5);
    assert_eq!(fps[0], Fingerprint { hash: 17592253153283, time_offset: 0 });
    assert_eq!(fps[0].hash, (1u64 << 44) | (4u64 << 24) | 3);
    assert_eq!(fps[4], Fingerprint { hash: 17592320262151, time_offset: 0 });
}

#[test]
fn pair_scheme_needs_a_full_target_zone() {
    assert!(generate_fingerprints(&ramp(7)).is_empty());
    assert!(generate_fingerprints(&[]).is_empty());
    let fps = generate_fingerprints(&ramp(10));
    assert_eq!(fps.len(), 15);
    assert_eq!(fps[5].time_offset, 1);
    assert_eq!(fps[14].time_offset, 2);
}

#[test]
fn quad_scheme_packs_three_anchors_and_target() {
    let fps = generate_fingerprints_quad(&ramp(10));
    assert_eq!(fps.len(), 5);
    assert_eq!(fps[0], Fingerprint { hash: 36169948435318789, time_offset: 0 });
    assert_eq!(fps[4], Fingerprint { hash: 36169949509060617, time_offset: 0 });
    assert!(generate_fingerprints_quad(&ramp(9)).is_empty());
}

#[test]
fn quad_scheme_masks_frequencies_to_nine_bits() {
    let mut peaks = ramp(10);
    peaks[0].freq_bin = 512;
    let fps = generate_fingerprints_quad(&peaks);
    assert_eq!(fps[0].hash, 141151416354821);
}

#[test]
fn quad_scheme_saturates_time_deltas() {
    let mut peaks = ramp(10);
    peaks[0].time_idx = 100;
    let fps = generate_fingerprints_quad(&peaks);
    let expected = (1u64 << 55) | (2u64 << 46) | (3u64 << 37) | (6u64 << 28);
    assert_eq!(fps[0].hash, expected);
    assert_eq!(fps[0].time_offset, 100);
}

#[test]
fn fuzzy_query_emits_nine_variants_per_quad() {
    let peaks = ramp(10);
    let fuzzy = generate_fuzzy_query_hashes(&peaks);
    let exact = generate_fingerprints_quad(&peaks);
    assert_eq!(fuzzy.len(), 45);
    assert_eq!(fuzzy[0].hash, 36169948166883332);
    assert_eq!(fuzzy[8].hash, 36169948703754246);
    for (q, fp) in exact.iter().enumerate() {
        assert_eq!(fuzzy[q * 9 + 4], *fp);
    }
    assert!(fuzzy.iter().all(|fp| fp.time_offset == 0));
}

#[test]
fn fuzzy_query_clamps_at_zero_then_masks() {
    let mut peaks: Vec<SpectrogramPoint> = (0..10)
        .map(|k| SpectrogramPoint { freq_bin: k + 1, magnitude_bits: 0, time_idx: 0 })
        .collect();
    peaks[5].freq_bin = 0;
    let fuzzy = generate_fuzzy_query_hashes(&peaks);
    assert_eq!(fuzzy[0].hash, 36169946824179712);
    assert_eq!(fuzzy[4].hash, 36169946824179712);
    assert_eq!(fuzzy[8].hash, 36169947092615169);
    peaks[5].freq_bin = 512;
    let fuzzy = generate_fuzzy_query_hashes(&peaks);
    assert_eq!(fuzzy[0].hash, 36170083994697728);
}

#[test]
fn hash_generation_is_deterministic() {
    let peaks = ramp(40);
    assert_eq!(generate_fingerprints(&peaks), generate_fingerprints(&peaks));
    assert_eq!(generate_fingerprints_quad(&peaks), generate_fingerprints_quad(&peaks));
    assert_eq!(generate_fuzzy_query_hashes(&peaks), generate_fuzzy_query_hashes(&peaks));
}

#[test]
fn schemes_dispatch_to_their_packing() {
    let peaks = ramp(12);
    assert_eq!(HashScheme::Pair.index_fingerprints(&peaks), generate_fingerprints(&peaks));
    assert_eq!(HashScheme::Quad.index_fingerprints(&peaks), generate_fingerprints_quad(&peaks));
    assert_eq!(HashScheme::Quad.query_fingerprints(&peaks, true), generate_fuzzy_query_hashes(&peaks));
    assert_eq!(HashScheme::Quad.query_fingerprints(&peaks, false), generate_fingerprints_quad(&peaks));
    assert_eq!(HashScheme::Pair.query_fingerprints(&peaks, true), generate_fingerprints(&peaks));
}

#[test]
fn sortedness_check() {
    assert!(is_sorted_by_time(&ramp(5)));
    assert!(is_sorted_by_time(&[]));
    let mut peaks = ramp(5);
    peaks[3].time_idx = 1;
    assert!(!is_sorted_by_time(&peaks));
}

#[test]
fn constellation_collects_targets() {
    let mut c = Constellation::new();
    assert_eq!(c.top, 0);
    c.push(7, 2);
    c.push(9, 4);
    assert_eq!(c.top, 2);
    assert_eq!(c.arr[0], (7, 2));
    assert_eq!(c.arr[1], (9, 4));
    assert_eq!(c.arr[2], (0, 0));
}
