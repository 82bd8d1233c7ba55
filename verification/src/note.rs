//! Frequency-to-note mapping, on the continuous note-number scale: note
//! number 69 is A4 (440 Hz) and one unit is one semitone. Note numbers are
//! carried as integers in thousandths of a note (milli-notes), so one unit
//! is a tenth of a cent.

use vstd::prelude::*;
use vstd::arithmetic::div_mod::lemma_div_is_ordered;

verus! {

/// Note numbers the mapper accepts, in milli-notes. The audible range ends
/// near note 150; this leaves generous headroom while keeping every
/// intermediate product inside `i64`.
pub const NOTE_NUMBER_MILLI_MAX: i64 = 1_000_000_000;

/// The integer note nearest to `nn_milli` milli-notes, rounding half up.
pub open spec fn nearest_note_spec(nn_milli: int) -> int {
    (nn_milli + 500) / 1000
}

/// Index into the twelve pitch classes, C first; non-negative for every
/// note number, the negative ones included.
pub open spec fn pitch_class_spec(nn_milli: int) -> int {
    nearest_note_spec(nn_milli) % 12
}

/// Octave under the convention that note 60 is C4.
pub open spec fn octave_spec(nn_milli: int) -> int {
    nearest_note_spec(nn_milli) / 12 - 1
}

/// Signed deviation from the nearest note, in thousandths of a cent.
pub open spec fn cents_milli_spec(nn_milli: int) -> int {
    (nn_milli - 1000 * nearest_note_spec(nn_milli)) * 100
}

/// The name of pitch class `pc`, from the fixed table starting at C.
pub open spec fn note_name_spec(pc: int) -> Seq<char> {
    if pc == 0 {
        "C"@
    } else if pc == 1 {
        "C#"@
    } else if pc == 2 {
        "D"@
    } else if pc == 3 {
        "D#"@
    } else if pc == 4 {
        "E"@
    } else if pc == 5 {
        "F"@
    } else if pc == 6 {
        "F#"@
    } else if pc == 7 {
        "G"@
    } else if pc == 8 {
        "G#"@
    } else if pc == 9 {
        "A"@
    } else if pc == 10 {
        "A#"@
    } else {
        "B"@
    }
}

/// A mapped note: pitch class index (0 is C), octave, and the signed
/// deviation from its exact pitch in thousandths of a cent.
#[derive(PartialEq, Eq, Structural, Clone, Copy, Debug)]
pub struct Note {
    pub pitch_class: usize,
    pub octave: i32,
    pub cents_milli: i64,
}

impl Note {
    pub open spec fn wf(&self) -> bool {
        self.pitch_class < 12 && -50000 <= self.cents_milli <= 49900
    }
}

/// Map a note number in milli-notes to the nearest note and its deviation.
pub fn map_note(nn_milli: i64) -> (r: Note)
    requires
        -NOTE_NUMBER_MILLI_MAX <= nn_milli <= NOTE_NUMBER_MILLI_MAX,
    ensures
        r.wf(),
        r.pitch_class == pitch_class_spec(nn_milli as int),
        r.octave == octave_spec(nn_milli as int),
        r.cents_milli == cents_milli_spec(nn_milli as int),
{
    let nearest: i64 = (nn_milli + 500).checked_div_euclid(1000).unwrap();
    let pc: i64 = nearest.checked_rem_euclid(12).unwrap();
    let oct: i64 = nearest.checked_div_euclid(12).unwrap() - 1;
    let cents_milli: i64 = (nn_milli - 1000 * nearest) * 100;
    Note { pitch_class: pc as usize, octave: oct as i32, cents_milli }
}

/// The fixed ordered table of the twelve pitch-class names, starting at C.
pub fn note_name(pc: usize) -> (r: &'static str)
    requires
        pc < 12,
    ensures
        r@ == note_name_spec(pc as int),
{
    if pc == 0 {
        "C"
    } else if pc == 1 {
        "C#"
    } else if pc == 2 {
        "D"
    } else if pc == 3 {
        "D#"
    } else if pc == 4 {
        "E"
    } else if pc == 5 {
        "F"
    } else if pc == 6 {
        "F#"
    } else if pc == 7 {
        "G"
    } else if pc == 8 {
        "G#"
    } else if pc == 9 {
        "A"
    } else if pc == 10 {
        "A#"
    } else {
        "B"
    }
}

/// The pitch-class index lies in [0, 12) for every note number, including
/// the negative ones reached by very low frequencies.
pub proof fn lemma_pitch_class_in_range(nn_milli: int)
    ensures
        0 <= pitch_class_spec(nn_milli) < 12,
{
}

/// Octave boundary: a note number whose nearest integer note is a multiple
/// of twelve maps to pitch class C.
pub proof fn lemma_octave_boundary(nn_milli: int)
    requires
        nearest_note_spec(nn_milli) % 12 == 0,
    ensures
        pitch_class_spec(nn_milli) == 0,
        note_name_spec(pitch_class_spec(nn_milli)) == "C"@,
{
}

/// The nearest-note choice is monotonic in the note number.
pub proof fn lemma_nearest_monotonic(a: int, b: int)
    requires
        a <= b,
    ensures
        nearest_note_spec(a) <= nearest_note_spec(b),
{
    lemma_div_is_ordered(a + 500, b + 500, 1000);
}

/// Mapping the exact pitch of an integer note is idempotent: it lands on
/// that note with zero deviation.
pub proof fn lemma_map_exact(k: int)
    ensures
        nearest_note_spec(1000 * k) == k,
        cents_milli_spec(1000 * k) == 0,
{
    assert((1000 * k + 500) / 1000 == k) by {
        vstd::arithmetic::div_mod::lemma_div_multiples_vanish_fancy(k, 500, 1000);
    }
}

} // verus!
