use perfect_pitch::estimator::{estimate, find_peak};

#[test]
fn find_peak_ignores_dc_and_breaks_ties_low() {
    // The DC bin towers over everything but is never searched.
    let s: Vec<u64> = vec![1000, 5, 9, 9, 2];
    assert_eq!(find_peak(&s), 2);
    let s: Vec<u64> = vec![0, 7, 7, 1];
    assert_eq!(find_peak(&s), 1);
}

#[test]
fn silence_gate_returns_no_pitch_without_searching() {
    let s: Vec<u64> = vec![0, 50, 900, 50];
    // RMS equal to the threshold is still silence.
    assert_eq!(estimate(&s, 10, 10, 44_100, 8), None);
    assert_eq!(estimate(&s, 0, 10, 44_100, 8), None);
}

#[test]
fn peak_at_last_index_skips_interpolation() {
    // Peak at the last bin: the guard must fall back to the raw bin and
    // must not divide by zero. Bin 3 of an 8-point window at 8 kHz is
    // exactly 3000 Hz.
    let s: Vec<u64> = vec![0, 1, 2, 10];
    assert_eq!(estimate(&s, 100, 10, 8_000, 8), Some(3_000_000));
}

#[test]
fn symmetric_neighbors_keep_the_integer_bin() {
    // Equal shoulders: the parabola's apex is the center bin itself.
    // Bin 2 of an 8-point window at 8 kHz is exactly 2000 Hz.
    let s: Vec<u64> = vec![0, 6, 10, 6];
    assert_eq!(estimate(&s, 100, 10, 8_000, 8), Some(2_000_000));
}

#[test]
fn zero_curvature_keeps_the_integer_bin() {
    // 12, 10, 8 around the peak lie on a line: zero curvature is a
    // degenerate fit — no refinement, no division by zero.
    let s: Vec<u64> = vec![12, 10, 8];
    assert_eq!(estimate(&s, 100, 10, 6_000, 6), Some(1_000_000));
}

#[test]
fn dc_dominated_fit_keeps_the_integer_bin() {
    // The unsearched DC bin towers over the peak's left neighborhood, so
    // the parabola opens the wrong way: the fit is discarded.
    let s: Vec<u64> = vec![1000, 100, 99, 0];
    assert_eq!(estimate(&s, 100, 10, 8_000, 8), Some(1_000_000));
}

#[test]
fn interpolation_leans_toward_the_larger_neighbor() {
    // l = 0, c = 10, r = 10 puts the apex half a bin above the center:
    // bin 2.5 of an 8-point window at 8 kHz is 2500 Hz.
    let s: Vec<u64> = vec![0, 0, 10, 10];
    assert_eq!(estimate(&s, 100, 10, 8_000, 8), Some(2_500_000));
}

#[test]
fn frequencies_at_or_below_the_audible_floor_are_rejected() {
    // Bin 1 of an 8-point window at 8 Hz sample rate is 1 Hz: spurious.
    let s: Vec<u64> = vec![0, 10, 1, 1];
    assert_eq!(estimate(&s, 100, 10, 8, 8), None);
}
