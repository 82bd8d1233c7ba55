use perfect_pitch::analyzer::{apply_window, isqrt, rms_fx, sum_squares};
use perfect_pitch::buffer::SampleBuffer;

#[test]
fn fifo_keeps_the_last_capacity_samples_in_order() {
    let mut buf = SampleBuffer::new(4);
    for s in 1..=7i64 {
        buf.push(s);
    }
    assert_eq!(buf.len(), 4);
    assert!(buf.is_ready());
    assert_eq!(buf.snapshot(), vec![4, 5, 6, 7]);
}

#[test]
fn buffer_below_capacity_keeps_everything() {
    let mut buf = SampleBuffer::new(8);
    let xs: Vec<i64> = vec![10, 20, 30];
    buf.push_all(&xs);
    assert_eq!(buf.len(), 3);
    assert!(!buf.is_ready());
    assert_eq!(buf.snapshot(), vec![10, 20, 30]);
}

#[test]
fn advance_evicts_the_oldest_samples() {
    let mut buf = SampleBuffer::new(5);
    let xs: Vec<i64> = vec![1, 2, 3, 4, 5];
    buf.push_all(&xs);
    buf.advance(2);
    assert_eq!(buf.len(), 3);
    assert_eq!(buf.snapshot(), vec![3, 4, 5]);
}

#[test]
fn isqrt_exact_and_floor_values() {
    assert_eq!(isqrt(0), 0);
    assert_eq!(isqrt(1), 1);
    assert_eq!(isqrt(3), 1);
    assert_eq!(isqrt(4), 2);
    assert_eq!(isqrt(65536 * 65536), 65536);
    assert_eq!(isqrt(65536 * 65536 - 1), 65535);
    assert_eq!(isqrt(u64::MAX), 0xFFFF_FFFF);
}

#[test]
fn rms_of_a_full_scale_constant_frame_is_one() {
    // Four samples at Q16 value 65536 (amplitude 1.0): RMS is exactly 1.0.
    let frame: Vec<i64> = vec![65536; 4];
    assert_eq!(sum_squares(&frame), 4 * 65536 * 65536);
    assert_eq!(rms_fx(&frame), 65536);
}

#[test]
fn rms_of_a_zero_frame_is_zero() {
    let frame: Vec<i64> = vec![0; 16];
    assert_eq!(rms_fx(&frame), 0);
}

#[test]
fn unity_window_is_identity_and_zero_window_silences() {
    let frame: Vec<i64> = vec![100, -200, 300];
    let unity: Vec<i64> = vec![65536; 3];
    assert_eq!(apply_window(&frame, &unity), vec![100, -200, 300]);
    let zero: Vec<i64> = vec![0; 3];
    assert_eq!(apply_window(&frame, &zero), vec![0, 0, 0]);
    // Half-scale coefficient halves the sample, rounding toward minus
    // infinity.
    let half: Vec<i64> = vec![32768; 3];
    assert_eq!(apply_window(&frame, &half), vec![50, -100, 150]);
}
