use std::collections::HashMap;

use audio_fingerprint::db::{is_audio_extension, Alignment, AudioDatabase, IndexError, MATCH_THRESHOLD};
use audio_fingerprint::generate_fingerprints::generate_fingerprints;
use audio_fingerprint::types::{Fingerprint, SpectrogramPoint};

struct Lcg(u64);

impl Lcg {
    fn next(&mut self) -> u64 {
        self.0 = self.0.wrapping_mul(6364136223846793005).wrapping_add(1442695040888963407);
        self.0 >> 33
    }
}

/// Two peaks per time column at pseudo-random bins, in time order.
fn song_peaks(seed: u64, columns: usize) -> Vec<SpectrogramPoint> {
    let mut rng = Lcg(seed);
    let mut peaks = Vec::new();
    for t in 0..columns {
        for _ in 0..2 {
            let bin = (rng.next() % 512) as usize;
            peaks.push(SpectrogramPoint { freq_bin: bin, magnitude_bits: 0, time_idx: t });
        }
    }
    peaks
}

fn fp(hash: u64, time_offset: usize) -> Fingerprint {
    Fingerprint { hash, time_offset }
}

#[test]
fn new_index_is_empty() {
    let db = AudioDatabase::new();
    assert_eq!(db.next_song_id(), 0);
    assert!(db.lookup(1).is_none());
    assert!(db.song_name(0).is_none());
    assert!(db.songs().is_empty());
    assert!(db.hashes().is_empty());
}

#[test]
fn ingest_allocates_dense_ids_and_appends_postings() {
    let mut db = AudioDatabase::new();
    let a = db.ingest("a.wav".to_string(), &[fp(7, 1), fp(8, 2), fp(7, 5)]);
    let b = db.ingest("b.mp3".to_string(), &[fp(7, 3)]);
    assert_eq!((a, b), (0, 1));
    assert_eq!(db.next_song_id(), 2);
    assert_eq!(db.song_name(0).map(|s| s.as_str()), Some("a.wav"));
    assert_eq!(db.song_name(1).map(|s| s.as_str()), Some("b.mp3"));
    assert_eq!(db.lookup(7), Some(&vec![(0, 1), (0, 5), (1, 3)]));
    assert_eq!(db.lookup(8), Some(&vec![(0, 2)]));
    assert_eq!(db.lookup(9), None);
}

#[test]
fn insert_fingerprints_appends_under_an_existing_song() {
    let mut db = AudioDatabase::new();
    let a = db.ingest("a".to_string(), &[fp(1, 0)]);
    db.insert_fingerprints(a, &[fp(1, 4), fp(2, 6)]);
    assert_eq!(db.lookup(1), Some(&vec![(0, 0), (0, 4)]));
    assert_eq!(db.lookup(2), Some(&vec![(0, 6)]));
    assert_eq!(db.next_song_id(), 1);
}

#[test]
fn best_alignment_counts_time_deltas() {
    let mut db = AudioDatabase::new();
    db.ingest("a".to_string(), &[fp(1, 10), fp(2, 11), fp(3, 12), fp(4, 40)]);
    db.ingest("b".to_string(), &[fp(1, 3), fp(4, 3)]);
    let query = [fp(1, 0), fp(2, 1), fp(3, 2), fp(4, 3)];
    assert_eq!(db.best_alignment(&query), Some(Alignment { song_id: 0, delta: 10, count: 3 }));
    assert_eq!(db.best_alignment(&[fp(99, 0)]), None);
    assert_eq!(db.best_alignment(&[]), None);
    assert_eq!(db.find_best_match(&query), None);
}

#[test]
fn negative_deltas_are_counted() {
    let mut db = AudioDatabase::new();
    let fps: Vec<Fingerprint> = (0..12).map(|k| fp(100 + k, k as usize)).collect();
    db.ingest("a".to_string(), &fps);
    let query: Vec<Fingerprint> = (0..12).map(|k| fp(100 + k, k as usize + 5)).collect();
    assert_eq!(db.best_alignment(&query), Some(Alignment { song_id: 0, delta: -5, count: 12 }));
    assert_eq!(db.find_best_match(&query), Some("a".to_string()));
}

#[test]
fn threshold_is_ten_aligned_collisions() {
    assert_eq!(MATCH_THRESHOLD, 10);
    let mut db = AudioDatabase::new();
    let fps: Vec<Fingerprint> = (0..10).map(|k| fp(k, k as usize)).collect();
    db.ingest("ten".to_string(), &fps);
    assert_eq!(db.find_best_match(&fps), Some("ten".to_string()));
    assert_eq!(db.find_best_match(&fps[..9]), None);
    assert_eq!(db.accept_alignment(Some(Alignment { song_id: 0, delta: 0, count: 10 })), Some("ten".to_string()));
    assert_eq!(db.accept_alignment(Some(Alignment { song_id: 0, delta: 0, count: 9 })), None);
    assert_eq!(db.accept_alignment(Some(Alignment { song_id: 5, delta: 0, count: 50 })), None);
    assert_eq!(db.accept_alignment(None), None);
}

#[test]
fn empty_query_matches_nothing() {
    let mut db = AudioDatabase::new();
    db.ingest("a".to_string(), &generate_fingerprints(&song_peaks(1, 100)));
    assert_eq!(db.find_best_match(&[]), None);
}

#[test]
fn self_match_saturates_at_delta_zero() {
    let fps = generate_fingerprints(&song_peaks(7, 300));
    let mut db = AudioDatabase::new();
    let id = db.ingest("s".to_string(), &fps);
    let best = db.best_alignment(&fps).unwrap();
    assert_eq!(best.song_id, id);
    assert_eq!(best.delta, 0);
    assert!(best.count >= fps.len());
    assert_eq!(db.find_best_match(&fps), Some("s".to_string()));
}

#[test]
fn identity_match() {
    let fps_a = generate_fingerprints(&song_peaks(11, 646));
    let mut db = AudioDatabase::new();
    db.ingest("A".to_string(), &fps_a);
    let best = db.best_alignment(&fps_a).unwrap();
    assert_eq!(best.delta, 0);
    assert!(best.count * 2 >= fps_a.len());
    assert_eq!(db.find_best_match(&fps_a), Some("A".to_string()));
}

#[test]
fn offset_match() {
    let peaks_a = song_peaks(11, 646);
    let mut db = AudioDatabase::new();
    db.ingest("A".to_string(), &generate_fingerprints(&peaks_a));
    let slice: Vec<SpectrogramPoint> = peaks_a
        .iter()
        .filter(|p| p.time_idx >= 215 && p.time_idx < 538)
        .map(|p| SpectrogramPoint { time_idx: p.time_idx - 215, ..*p })
        .collect();
    let query = generate_fingerprints(&slice);
    let best = db.best_alignment(&query).unwrap();
    assert_eq!(best.delta, 215);
    assert_eq!(db.find_best_match(&query), Some("A".to_string()));
}

#[test]
fn unknown_query() {
    let mut db = AudioDatabase::new();
    db.ingest("A".to_string(), &generate_fingerprints(&song_peaks(11, 646)));
    let query = generate_fingerprints(&song_peaks(99, 646));
    assert_eq!(db.find_best_match(&query), None);
    let best = db.best_alignment(&query).map(|a| a.count).unwrap_or(0);
    assert!(best < 10);
}

#[test]
fn two_song_disambiguation() {
    let peaks_a = song_peaks(11, 646);
    let peaks_b = song_peaks(23, 646);
    let mut db = AudioDatabase::new();
    db.ingest("A".to_string(), &generate_fingerprints(&peaks_a));
    db.ingest("B".to_string(), &generate_fingerprints(&peaks_b));
    let mut noise = Lcg(5);
    let mut noisy: Vec<SpectrogramPoint> = Vec::new();
    for p in peaks_b.iter().filter(|p| p.time_idx >= 100 && p.time_idx < 400) {
        if noise.next() % 5 == 0 {
            continue;
        }
        noisy.push(SpectrogramPoint { time_idx: p.time_idx - 100, ..*p });
        if noise.next() % 4 == 0 {
            let bin = (noise.next() % 512) as usize;
            noisy.push(SpectrogramPoint { freq_bin: bin, magnitude_bits: 0, time_idx: p.time_idx - 100 });
        }
    }
    let query = generate_fingerprints(&noisy);
    assert_eq!(db.find_best_match(&query), Some("B".to_string()));
    assert_eq!(db.best_alignment(&query).unwrap().delta, 100);
}

#[test]
fn random_stream_stays_below_threshold() {
    let mut db = AudioDatabase::new();
    for seed in 0..3 {
        db.ingest(format!("song{}", seed), &generate_fingerprints(&song_peaks(seed + 40, 400)));
    }
    let mut rng = Lcg(1234);
    let query: Vec<Fingerprint> = (0..2000)
        .map(|_| fp((rng.next() << 31) ^ rng.next(), (rng.next() % 400) as usize))
        .collect();
    let best = db.best_alignment(&query).map(|a| a.count).unwrap_or(0);
    assert!(best < 10);
    assert_eq!(db.find_best_match(&query), None);
}

#[test]
fn from_parts_accepts_what_into_parts_gives() {
    let mut db = AudioDatabase::new();
    db.ingest("a".to_string(), &[fp(1, 2), fp(3, 4)]);
    db.ingest("b".to_string(), &[fp(1, 5)]);
    let (songs, hashes, next) = db.into_parts();
    let restored = AudioDatabase::from_parts(songs.clone(), hashes.clone(), next).unwrap();
    assert_eq!(restored.songs(), &songs);
    assert_eq!(restored.hashes(), &hashes);
    assert_eq!(restored.next_song_id(), 2);
    assert_eq!(restored.lookup(1), Some(&vec![(0, 2), (1, 5)]));
}

#[test]
fn from_parts_rejects_song_id_not_below_next() {
    let mut songs = HashMap::new();
    songs.insert(3u32, "x".to_string());
    let r = AudioDatabase::from_parts(songs, HashMap::new(), 3);
    assert_eq!(r.err(), Some(IndexError::CorruptIndex));
}

#[test]
fn from_parts_rejects_empty_posting_list() {
    let mut songs = HashMap::new();
    songs.insert(0u32, "x".to_string());
    let mut hashes = HashMap::new();
    hashes.insert(5u64, Vec::new());
    let r = AudioDatabase::from_parts(songs, hashes, 1);
    assert_eq!(r.err(), Some(IndexError::CorruptIndex));
}

#[test]
fn from_parts_rejects_posting_of_unknown_song() {
    let mut songs = HashMap::new();
    songs.insert(0u32, "x".to_string());
    let mut hashes = HashMap::new();
    hashes.insert(5u64, vec![(0u32, 1usize), (1u32, 2usize)]);
    let r = AudioDatabase::from_parts(songs.clone(), hashes, 4);
    assert_eq!(r.err(), Some(IndexError::CorruptIndex));
    let mut ok = HashMap::new();
    ok.insert(5u64, vec![(0u32, 1usize)]);
    assert!(AudioDatabase::from_parts(songs, ok, 1).is_ok());
}

#[test]
fn from_parts_accepts_an_empty_index() {
    let db = AudioDatabase::from_parts(HashMap::new(), HashMap::new(), 0).unwrap();
    assert_eq!(db.next_song_id(), 0);
}

#[test]
fn only_mp3_and_wav_are_indexed() {
    assert!(is_audio_extension("mp3"));
    assert!(is_audio_extension("wav"));
    assert!(!is_audio_extension("MP3"));
    assert!(!is_audio_extension("flac"));
    assert!(!is_audio_extension("mp"));
    assert!(!is_audio_extension(""));
}
