use audio_fingerprint::find_peaks::{band_maxima, float_greater, select_above, PeakPicker};
use audio_fingerprint::frames::frame_starts;
use audio_fingerprint::generate_fingerprints::{generate_fingerprints, is_sorted_by_time};
use audio_fingerprint::types::SpectrogramPoint;

fn bits(column: &[f32]) -> Vec<u32> {
    column.iter().map(|m| m.to_bits()).collect()
}

fn band(bin: usize) -> usize {
    [10, 20, 40, 80, 160, 512].iter().position(|&end| bin < end).unwrap()
}

/// Mean plus `k` sample standard deviations over the last sixty values,
/// with the empty-window mean of 10.
fn threshold(history: &[f32], k: f32) -> f32 {
    let window = &history[history.len().saturating_sub(60)..];
    if window.is_empty() {
        return 10.0;
    }
    let n = window.len() as f32;
    let mean = window.iter().sum::<f32>() / n;
    let sd = if window.len() < 2 {
        0.0
    } else {
        (window.iter().map(|v| (v - mean) * (v - mean)).sum::<f32>() / (n - 1.0)).sqrt()
    };
    mean + k * sd
}

fn pick(columns: &[Vec<f32>], k: f32) -> Vec<SpectrogramPoint> {
    let mut picker = PeakPicker::new();
    let mut history: Vec<f32> = Vec::new();
    for column in columns {
        let maxima = picker.begin_column(&bits(column));
        history.extend(maxima.iter().map(|b| f32::from_bits(*b)));
        picker.finish_column(threshold(&history, k).to_bits());
    }
    picker.into_peaks()
}

#[test]
fn float_order_on_bit_patterns() {
    let gt = |a: f32, b: f32| float_greater(a.to_bits(), b.to_bits());
    assert!(gt(1.5, 1.0));
    assert!(!gt(1.0, 1.5));
    assert!(!gt(1.0, 1.0));
    assert!(!gt(-0.0, 0.0));
    assert!(!gt(0.0, -0.0));
    assert!(gt(0.0, -1.0));
    assert!(gt(-1.0, -2.0));
    assert!(gt(f32::INFINITY, f32::MAX));
    assert!(gt(f32::MIN, f32::NEG_INFINITY));
    assert!(!gt(f32::NAN, 1.0));
    assert!(!gt(1.0, f32::NAN));
}

#[test]
fn band_maxima_takes_the_strongest_bin_of_each_band() {
    let mut column = vec![0.0f32; 512];
    column[93] = 5.0;
    column[3] = 1.0;
    column[300] = 2.0;
    let cands = band_maxima(&bits(&column), 4);
    let found: Vec<usize> = cands.iter().map(|p| p.freq_bin).collect();
    assert_eq!(found, vec![3, 19, 39, 79, 93, 300]);
    assert_eq!(cands[4].magnitude_bits, 5.0f32.to_bits());
    assert!(cands.iter().all(|p| p.time_idx == 4));
}

#[test]
fn band_maxima_breaks_ties_to_the_last_bin_and_ranks_nan_lowest() {
    let mut column = vec![1.0f32; 512];
    column[7] = f32::NAN;
    for bin in 10..20 {
        column[bin] = f32::NAN;
    }
    column[25] = -3.0;
    let cands = band_maxima(&bits(&column), 0);
    assert_eq!(cands[0].freq_bin, 9);
    assert_eq!(cands[1].freq_bin, 19);
    assert_eq!(cands[2].freq_bin, 39);
    assert_eq!(cands[5].freq_bin, 511);
}

#[test]
fn select_above_is_strict_and_keeps_order() {
    let cands: Vec<SpectrogramPoint> = [1.0f32, 3.0, 2.0, f32::NAN]
        .iter()
        .enumerate()
        .map(|(i, m)| SpectrogramPoint { freq_bin: i, magnitude_bits: m.to_bits(), time_idx: 0 })
        .collect();
    let kept = select_above(&cands, 2.0f32.to_bits());
    assert_eq!(kept, vec![cands[1]]);
    assert_eq!(select_above(&cands, f32::NAN.to_bits()), vec![]);
    assert_eq!(select_above(&cands, 0.5f32.to_bits()), vec![cands[0], cands[1], cands[2]]);
}

#[test]
fn silence_gives_no_peaks_and_no_fingerprints() {
    let columns = vec![vec![0.0f32; 512]; 428];
    let peaks = pick(&columns, 0.5);
    assert!(peaks.is_empty());
    assert!(generate_fingerprints(&peaks).is_empty());
}

#[test]
fn single_tone_gives_a_peak_in_its_band_every_column() {
    let columns: Vec<Vec<f32>> = (0..100)
        .map(|t| {
            let mut c: Vec<f32> = (0..512).map(|b| 0.01 * (((b * 7 + t * 3) % 11) as f32)).collect();
            c[93] = 200.0;
            c
        })
        .collect();
    let peaks = pick(&columns, 0.5);
    for t in 0..100 {
        let in_band: Vec<&SpectrogramPoint> =
            peaks.iter().filter(|p| p.time_idx == t && band(p.freq_bin) == 4).collect();
        assert_eq!(in_band.len(), 1);
        assert_eq!(in_band[0].freq_bin, 93);
    }
}

#[test]
fn first_column_is_held_against_its_own_maxima() {
    let mut column = vec![0.0f32; 512];
    column[93] = 20.0;
    let peaks = pick(&[column], 0.5);
    assert_eq!(peaks.len(), 1);
    assert_eq!(peaks[0].freq_bin, 93);
    assert_eq!(peaks[0].time_idx, 0);
}

#[test]
fn at_most_one_peak_per_band_and_column() {
    let columns: Vec<Vec<f32>> = (0..50)
        .map(|t| (0..512).map(|b| (((b * 31 + t * 17) % 97) as f32) * 0.5).collect())
        .collect();
    let peaks = pick(&columns, 0.0);
    assert!(!peaks.is_empty());
    for (i, p) in peaks.iter().enumerate() {
        for q in &peaks[i + 1..] {
            assert!(!(p.time_idx == q.time_idx && band(p.freq_bin) == band(q.freq_bin)));
        }
    }
    assert!(is_sorted_by_time(&peaks));
}

#[test]
fn picker_reports_when_it_waits_for_a_threshold() {
    let mut picker = PeakPicker::new();
    assert!(!picker.awaiting_threshold());
    let maxima = picker.begin_column(&bits(&vec![1.0f32; 512]));
    assert_eq!(maxima.len(), 6);
    assert!(picker.awaiting_threshold());
    assert_eq!(picker.current_column(), 0);
    picker.finish_column(0.5f32.to_bits());
    assert!(!picker.awaiting_threshold());
    assert_eq!(picker.current_column(), 1);
    assert_eq!(picker.into_peaks().len(), 6);
}

#[test]
fn frames_cover_whole_windows_at_half_overlap() {
    assert_eq!(frame_starts(0), Vec::<usize>::new());
    assert_eq!(frame_starts(1023), Vec::<usize>::new());
    assert_eq!(frame_starts(1024), vec![0]);
    assert_eq!(frame_starts(1535), vec![0]);
    assert_eq!(frame_starts(1536), vec![0, 512]);
    assert_eq!(frame_starts(2048), vec![0, 512, 1024]);
    assert_eq!(frame_starts(5 * 11025).len(), 106);
}
