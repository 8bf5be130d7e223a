use mouse_capture::date::Date;
use mouse_capture::rotation::{
    decide_rotation, initial_state, max_chunk_bytes_of_mb, CaptureState, RotationDecision,
};

fn day(y: u32, m: u32, d: u32) -> Date {
    Date::new(y, m, d).unwrap()
}

#[test]
fn max_chunk_bytes_is_megabytes_times_1048576() {
    assert_eq!(max_chunk_bytes_of_mb(2), 2 * 1024 * 1024);
    assert_eq!(max_chunk_bytes_of_mb(1), 1048576);
}

#[test]
fn continue_below_threshold_same_day() {
    let d = day(2024, 1, 15);
    assert_eq!(decide_rotation(&d, &d, 8, 9), RotationDecision::Continue);
}

#[test]
fn size_threshold_fires_at_post_write_count() {
    let d = day(2024, 1, 15);
    assert_eq!(decide_rotation(&d, &d, 9, 9), RotationDecision::NewSizeChunk);
    assert_eq!(decide_rotation(&d, &d, 10, 9), RotationDecision::NewSizeChunk);
}

#[test]
fn date_change_wins_over_size_threshold() {
    let prev = day(2024, 1, 15);
    let next = day(2024, 1, 16);
    assert_eq!(decide_rotation(&prev, &next, 9, 9), RotationDecision::NewDay);
}

#[test]
fn initial_state_is_first_index_of_today() {
    let d = day(2024, 1, 15);
    let s = initial_state(d);
    assert_eq!(s.date, d);
    assert_eq!(s.chunk_index, 1);
    assert_eq!(s.bytes_in_chunk, 0);
}

#[test]
fn size_rotation_after_k_records() {
    // threshold of exactly 3 records of 3 bytes
    let d = day(2024, 1, 15);
    let max = 9u64;
    let mut s = initial_state(d);
    let mut rotations = Vec::new();
    for _ in 0..4 {
        let (next, rotated) = s.on_record_written(false, max);
        rotations.push(rotated);
        s = next;
    }
    // the first chunk takes exactly 3 records, then one rotation
    assert_eq!(rotations, vec![false, false, true, false]);
    assert_eq!(s.chunk_index, 2);
    assert_eq!(s.bytes_in_chunk, 3);
    assert_eq!(s.date, d);
}

#[test]
fn date_rotation_resets_index_regardless_of_fill() {
    let d1 = day(2024, 1, 15);
    let d2 = day(2024, 1, 16);
    let s = CaptureState { date: d1, chunk_index: 7, bytes_in_chunk: 123 };
    let (next, opened) = s.on_new_date(d2);
    assert!(opened);
    assert_eq!(next.date, d2);
    assert_eq!(next.chunk_index, 1);
    assert_eq!(next.bytes_in_chunk, 0);
}

#[test]
fn same_date_does_not_rotate() {
    let d = day(2024, 1, 15);
    let s = CaptureState { date: d, chunk_index: 7, bytes_in_chunk: 123 };
    let (next, opened) = s.on_new_date(d);
    assert!(!opened);
    assert_eq!(next.chunk_index, 7);
    assert_eq!(next.bytes_in_chunk, 123);
}

#[test]
fn four_byte_mode_counts_four_per_record() {
    let d = day(2024, 1, 15);
    let s = initial_state(d);
    let (next, rotated) = s.on_record_written(true, 1048576);
    assert!(!rotated);
    assert_eq!(next.bytes_in_chunk, 4);
}
