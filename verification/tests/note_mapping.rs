use perfect_pitch::note::{map_note, note_name};
use perfect_pitch::tuning::note_number_milli;

#[test]
fn a4_maps_to_a_octave_4_zero_cents() {
    let nn = note_number_milli(440_000);
    assert_eq!(nn, 69_000);
    let note = map_note(nn);
    assert_eq!(note.pitch_class, 9);
    assert_eq!(note_name(note.pitch_class), "A");
    assert_eq!(note.octave, 4);
    assert_eq!(note.cents_milli, 0);
}

#[test]
fn a5_maps_to_a_octave_5_zero_cents() {
    let nn = note_number_milli(880_000);
    assert_eq!(nn, 81_000);
    let note = map_note(nn);
    assert_eq!(note.pitch_class, 9);
    assert_eq!(note.octave, 5);
    assert_eq!(note.cents_milli, 0);
}

#[test]
fn a3_maps_to_a_octave_3_zero_cents() {
    let nn = note_number_milli(220_000);
    assert_eq!(nn, 57_000);
    let note = map_note(nn);
    assert_eq!(note.pitch_class, 9);
    assert_eq!(note.octave, 3);
    assert_eq!(note.cents_milli, 0);
}

#[test]
fn middle_c_maps_to_c_octave_4_near_zero_cents() {
    let nn = note_number_milli(261_630);
    let note = map_note(nn);
    assert_eq!(note.pitch_class, 0);
    assert_eq!(note_name(note.pitch_class), "C");
    assert_eq!(note.octave, 4);
    // 261.63 Hz is a fraction of a cent above equal-tempered C4.
    assert!(note.cents_milli.abs() < 1_000, "cents_milli = {}", note.cents_milli);
}

#[test]
fn note_number_is_monotonic_in_frequency() {
    let mut last = note_number_milli(100_000);
    for f in [200_000u64, 261_630, 440_000, 880_000, 1_760_000, 10_000_000] {
        let nn = note_number_milli(f);
        assert!(nn > last, "note number must grow with frequency");
        last = nn;
    }
}

#[test]
fn octave_boundary_multiple_of_twelve_is_c() {
    // Note 60 is C4; note 0 is C-1; note 120 is C9.
    for &k in &[0i64, 12, 24, 60, 120] {
        let note = map_note(1000 * k);
        assert_eq!(note.pitch_class, 0);
        assert_eq!(note_name(note.pitch_class), "C");
        assert_eq!(note.cents_milli, 0);
    }
    assert_eq!(map_note(60_000).octave, 4);
    assert_eq!(map_note(0).octave, -1);
}

#[test]
fn negative_note_numbers_resolve_to_valid_pitch_class() {
    // A very low frequency gives a negative note number; the Euclidean
    // modulo must still land in [0, 12).
    for &nn in &[-1_000i64, -500, -12_000, -35_000, -100_000] {
        let note = map_note(nn);
        assert!(note.pitch_class < 12, "pitch class {} out of range", note.pitch_class);
    }
    // Note -1 is B of octave -2.
    let note = map_note(-1_000);
    assert_eq!(note.pitch_class, 11);
    assert_eq!(note_name(note.pitch_class), "B");
    assert_eq!(note.octave, -2);
    // A frequency of one millihertz still maps without panicking.
    let nn = note_number_milli(1);
    let note = map_note(nn);
    assert!(note.pitch_class < 12);
}

#[test]
fn rounding_picks_the_nearest_note() {
    // 49 cents sharp of A4 still reads as A4; a full half step up reads
    // as the next note.
    let note = map_note(69_490);
    assert_eq!(note.pitch_class, 9);
    assert_eq!(note.cents_milli, 49_000);
    let note = map_note(69_500);
    assert_eq!(note.pitch_class, 10);
    assert_eq!(note_name(note.pitch_class), "A#");
    assert_eq!(note.cents_milli, -50_000);
}

#[test]
fn note_name_table_starts_at_c() {
    let names = ["C", "C#", "D", "D#", "E", "F", "F#", "G", "G#", "A", "A#", "B"];
    for (pc, want) in names.iter().enumerate() {
        assert_eq!(note_name(pc), *want);
    }
}
