//! Frequency to note number, in fixed point. The note number is the
//! MIDI-style continuous scale `12 * log2(f / 440 Hz) + 69`, carried in
//! milli-notes. The logarithm is computed exactly as specified here: the
//! frequency ratio is normalized into [1, 2) as a Q32 value, and the
//! fractional bits of its base-2 logarithm are extracted one at a time by
//! repeated squaring, each square truncated back to Q32. The specification
//! mirrors that computation bit for bit; at exact powers of two of the
//! reference — 220, 440, 880 Hz — the result is exact, which the lemmas
//! at the end state.

use vstd::prelude::*;
use vstd::arithmetic::div_mod::{lemma_div_is_ordered, lemma_div_multiples_vanish};
use vstd::arithmetic::mul::lemma_mul_inequality;
use vstd::arithmetic::power2::{lemma2_to64, lemma_pow2_strictly_increases, lemma_pow2_unfold, pow2};

verus! {

/// Reference pitch: A4, in millihertz.
pub const REFERENCE_MILLIHZ: u64 = 440_000;

/// Note number of the reference pitch, in milli-notes.
pub const REFERENCE_NOTE_MILLI: i64 = 69_000;

/// Largest admissible frequency, in millihertz (about one megahertz).
pub const FREQ_MILLIHZ_MAX: u64 = 0x4000_0000;

/// Double a Q32 value until it reaches [2^32, inf); each doubling lowers
/// the exponent by one.
pub open spec fn normalize_up(m: int, e: int) -> (int, int)
    decreases (if 1 <= m < 0x1_0000_0000 {
        0x1_0000_0000 - m
    } else {
        0
    }),
{
    if 1 <= m < 0x1_0000_0000 {
        normalize_up(2 * m, e - 1)
    } else {
        (m, e)
    }
}

/// Halve a Q32 value until it falls under 2^33; each halving raises the
/// exponent by one.
pub open spec fn normalize_down(m: int, e: int) -> (int, int)
    decreases (if m >= 0x2_0000_0000 {
        m
    } else {
        0
    }),
{
    if m >= 0x2_0000_0000 {
        normalize_down(m / 2, e + 1)
    } else {
        (m, e)
    }
}

/// Extract `k` fractional bits of `log2(m / 2^32)` for `m` in [2^32, 2^33):
/// square, truncate to Q32, and either take a one bit and halve or take a
/// zero bit.
pub open spec fn frac_bits(m: int, acc: int, k: nat) -> int
    decreases k,
{
    if k == 0 {
        acc
    } else {
        let sq = (m * m) / 0x1_0000_0000;
        if sq >= 0x2_0000_0000 {
            frac_bits(sq / 2, 2 * acc + 1, (k - 1) as nat)
        } else {
            frac_bits(sq, 2 * acc, (k - 1) as nat)
        }
    }
}

/// The note number of a frequency, in milli-notes: 69000 plus 12000 times
/// the base-2 logarithm of the ratio to 440 Hz, the fractional part taken
/// to 24 bits and rounded half up.
pub open spec fn note_number_milli_spec(freq_millihz: int) -> int {
    let x = freq_millihz * 0x1_0000_0000 / (REFERENCE_MILLIHZ as int);
    let up = normalize_up(x, 0);
    let me = normalize_down(up.0, up.1);
    let f = frac_bits(me.0, 0, 24);
    (REFERENCE_NOTE_MILLI as int) + me.1 * 12_000 + (f * 12_000 + 0x80_0000) / 0x100_0000
}

/// Compute the note number of a frequency, in milli-notes.
pub fn note_number_milli(freq_millihz: u64) -> (r: i64)
    requires
        1 <= freq_millihz <= FREQ_MILLIHZ_MAX,
    ensures
        r == note_number_milli_spec(freq_millihz as int),
        -1_000_000 <= r <= 1_000_000,
{
    let x: u64 = freq_millihz * 0x1_0000_0000 / REFERENCE_MILLIHZ;
    proof {
        lemma_div_is_ordered(1int * 0x1_0000_0000, freq_millihz as int * 0x1_0000_0000, 440_000);
        lemma_mul_inequality(1, freq_millihz as int, 0x1_0000_0000);
        lemma_mul_inequality(freq_millihz as int, 0x4000_0000, 0x1_0000_0000);
        lemma_div_is_ordered(
            freq_millihz as int * 0x1_0000_0000,
            0x4000_0000i64 * 0x1_0000_0000,
            440_000,
        );
        lemma2_to64();
    }
    assert(9761 <= x <= 0x2_0000_0000_0000);
    let ghost x0: int = x as int;
    let mut m: u64 = x;
    let mut e: i64 = 0;
    while m < 0x1_0000_0000
        invariant
            1 <= m <= 0x2_0000_0000_0000,
            -32 <= e <= 0,
            pow2((-e) as nat) <= m,
            normalize_up(m as int, e as int) == normalize_up(x0, 0),
        decreases (if m < 0x1_0000_0000 {
            0x1_0000_0000 - m as int
        } else {
            0int
        }),
    {
        proof {
            lemma2_to64();
            if e <= -32 {
                assert(pow2(32) <= m);
                assert(false);
            }
            lemma_pow2_unfold((1 - e) as nat);
            assert(normalize_up(m as int, e as int) == normalize_up(
                2 * (m as int),
                e as int - 1,
            ));
        }
        m = m * 2;
        e = e - 1;
    }
    proof {
        assert(normalize_up(m as int, e as int) == (m as int, e as int));
        assert((m as int, e as int) == normalize_up(x0, 0));
    }
    let ghost m1: int = m as int;
    let ghost e1: int = e as int;
    proof {
        lemma2_to64();
        assert(pow2(0) == 1);
        assert((m as int) * 1 == m as int) by (nonlinear_arith);
    }
    while m >= 0x2_0000_0000
        invariant
            0x1_0000_0000 <= m,
            -32 <= e1 <= 0,
            e1 <= e <= e1 + 17,
            (m as int) * pow2((e - e1) as nat) <= m1 <= 0x2_0000_0000_0000,
            normalize_down(m as int, e as int) == normalize_down(m1, e1),
        decreases m,
    {
        proof {
            lemma2_to64();
            let d: nat = (e - e1) as nat;
            lemma_pow2_unfold(d + 1);
            assert((m as int / 2) * pow2(d + 1) == (m as int / 2) * 2 * pow2(d)) by (nonlinear_arith)
                requires
                    pow2(d + 1) == 2 * pow2(d),
            ;
            assert((m as int / 2) * 2 <= m as int);
            lemma_mul_inequality((m as int / 2) * 2, m as int, pow2(d) as int);
            assert(normalize_down(m as int, e as int) == normalize_down(
                m as int / 2,
                e as int + 1,
            ));
            if d >= 17 {
                if d > 17 {
                    lemma_pow2_strictly_increases(17, d);
                }
                assert(pow2(17) <= pow2(d));
                assert((0x2_0000_0000int) * pow2(17) <= (m as int) * pow2(d)) by (nonlinear_arith)
                    requires
                        0x2_0000_0000 <= (m as int),
                        pow2(17) <= pow2(d),
                ;
                assert(false);
            }
        }
        m = m / 2;
        e = e + 1;
    }
    proof {
        assert(normalize_down(m as int, e as int) == (m as int, e as int));
        assert(-32 <= e <= 17);
    }
    let ghost m2: int = m as int;
    let ghost e2: int = e as int;
    let mut frac: u64 = 0;
    let mut k: u64 = 0;
    while k < 24
        invariant
            k <= 24,
            0x1_0000_0000 <= m < 0x2_0000_0000,
            frac < pow2(k as nat),
            frac_bits(m as int, frac as int, (24 - k) as nat) == frac_bits(m2, 0, 24),
        decreases 24 - k,
    {
        proof {
            lemma2_to64();
            if k >= 1 {
                lemma_pow2_strictly_increases(k as nat, 24);
            }
            assert(frac < pow2(24));
            assert((m as int) * (m as int) < 0x2_0000_0000i64 * 0x2_0000_0000) by (nonlinear_arith)
                requires
                    (m as int) < 0x2_0000_0000,
                    0 <= (m as int),
            ;
            assert(0x1_0000_0000i64 * 0x1_0000_0000 <= (m as int) * (m as int))
                by (nonlinear_arith)
                requires
                    0x1_0000_0000 <= (m as int),
            ;
            lemma_div_is_ordered(
                0x1_0000_0000i64 * 0x1_0000_0000,
                (m as int) * (m as int),
                0x1_0000_0000,
            );
            lemma_div_is_ordered(
                (m as int) * (m as int),
                0x2_0000_0000i64 * 0x2_0000_0000,
                0x1_0000_0000,
            );
            lemma_pow2_unfold((k + 1) as nat);
        }
        let sq: u64 = (((m as u128) * (m as u128)) / 0x1_0000_0000) as u64;
        assert(sq as int == (m as int) * (m as int) / 0x1_0000_0000);
        proof {
            assert(frac_bits(m as int, frac as int, (24 - k) as nat) == (if sq as int
                >= 0x2_0000_0000 {
                frac_bits(sq as int / 2, 2 * (frac as int) + 1, (24 - k - 1) as nat)
            } else {
                frac_bits(sq as int, 2 * (frac as int), (24 - k - 1) as nat)
            }));
        }
        if sq >= 0x2_0000_0000 {
            m = sq / 2;
            frac = frac * 2 + 1;
        } else {
            m = sq;
            frac = frac * 2;
        }
        k = k + 1;
    }
    proof {
        lemma2_to64();
        assert(frac_bits(m as int, frac as int, 0) == frac as int);
        assert(frac as int == frac_bits(m2, 0, 24));
        assert(frac < 0x100_0000);
    }
    let round: u64 = (frac * 12_000 + 0x80_0000) / 0x100_0000;
    assert(round <= 12_000) by {
        lemma_mul_inequality(frac as int, 0xFF_FFFF, 12_000);
        lemma_div_is_ordered(
            frac as int * 12_000 + 0x80_0000,
            0xFF_FFFFi64 * 12_000 + 0x80_0000,
            0x100_0000,
        );
    }
    let r: i64 = REFERENCE_NOTE_MILLI + e * 12_000 + (round as i64);
    proof {
        assert(note_number_milli_spec(freq_millihz as int) == 69_000 + e2 * 12_000 + (frac_bits(
            m2,
            0,
            24,
        ) * 12_000 + 0x80_0000) / 0x100_0000);
    }
    r
}

/// Exactness at the reference: 440 Hz is note 69 (A4) on the nose.
pub proof fn lemma_note_number_at_reference()
    ensures
        note_number_milli_spec(440_000) == 69_000,
{
    lemma_div_multiples_vanish(0x1_0000_0000, 440_000);
    assert(440_000 * 0x1_0000_0000 / 440_000 == 0x1_0000_0000);
    lemma_frac_bits_of_one(24);
    assert(normalize_up(0x1_0000_0000, 0) == (0x1_0000_0000int, 0int));
    assert(normalize_down(0x1_0000_0000, 0) == (0x1_0000_0000int, 0int));
}

/// Exactness one octave up: 880 Hz is note 81 (A5) on the nose.
pub proof fn lemma_note_number_octave_up()
    ensures
        note_number_milli_spec(880_000) == 81_000,
{
    lemma_div_multiples_vanish(0x2_0000_0000, 440_000);
    assert(880_000 * 0x1_0000_0000 == 440_000 * 0x2_0000_0000) by (nonlinear_arith);
    assert(880_000 * 0x1_0000_0000 / 440_000 == 0x2_0000_0000);
    lemma_frac_bits_of_one(24);
    assert(normalize_up(0x2_0000_0000, 0) == (0x2_0000_0000int, 0int));
    assert(normalize_down(0x2_0000_0000, 0) == normalize_down(0x1_0000_0000, 1));
    assert(normalize_down(0x2_0000_0000, 0) == (0x1_0000_0000int, 1int));
}

/// Exactness one octave down: 220 Hz is note 57 (A3) on the nose.
pub proof fn lemma_note_number_octave_down()
    ensures
        note_number_milli_spec(220_000) == 57_000,
{
    lemma_div_multiples_vanish(0x8000_0000, 440_000);
    assert(220_000 * 0x1_0000_0000 == 440_000 * 0x8000_0000) by (nonlinear_arith);
    assert(220_000 * 0x1_0000_0000 / 440_000 == 0x8000_0000);
    lemma_frac_bits_of_one(24);
    assert(normalize_up(0x8000_0000, 0) == normalize_up(0x1_0000_0000, -1));
    assert(normalize_up(0x8000_0000, 0) == (0x1_0000_0000int, -1int));
    assert(normalize_down(0x1_0000_0000, -1) == (0x1_0000_0000int, -1int));
}

/// The logarithm of one is zero: every extracted fractional bit of the
/// normalized value 2^32 is zero.
pub proof fn lemma_frac_bits_of_one(k: nat)
    ensures
        frac_bits(0x1_0000_0000, 0, k) == 0,
    decreases k,
{
    if k > 0 {
        assert(0x1_0000_0000int * 0x1_0000_0000 / 0x1_0000_0000 == 0x1_0000_0000);
        lemma_frac_bits_of_one((k - 1) as nat);
    }
}

} // verus!
