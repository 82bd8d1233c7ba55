//! Dominant-peak pitch estimation over a magnitude spectrum: stable
//! maximum search over the non-DC bins, parabolic sub-bin refinement in
//! Q16 fixed point, conversion to millihertz, and the two rejection
//! gates (amplitude below threshold, frequency below the audible floor).

use vstd::prelude::*;
use vstd::arithmetic::mul::{lemma_mul_inequality, lemma_mul_nonnegative, lemma_mul_upper_bound};

verus! {

/// Frequencies at or below this floor (in millihertz) are spurious.
pub const MIN_FREQ_MILLIHZ: u64 = 20_000;

/// One whole bin in the Q16 fixed-point bin-position scale.
pub const BIN_ONE_Q16: i64 = 65536;

/// Largest admissible spectrum magnitude (Q16). Keeps every intermediate
/// product of the interpolation inside `i64`.
pub const MAG_MAX: u64 = 0x100_0000_0000;

/// Largest admissible sample rate in Hz; keeps the frequency conversion
/// inside `u64`.
pub const SAMPLE_RATE_MAX: u32 = 200_000;

/// `i` is the index of the first maximum magnitude over the searched bins
/// `[1, len)`; the DC bin is excluded, ties go to the lowest index.
pub open spec fn is_first_peak(s: Seq<u64>, i: int) -> bool {
    &&& 1 <= i < s.len()
    &&& (forall|j: int| 1 <= j < s.len() ==> s[j] <= s[i])
    &&& (forall|j: int| 1 <= j < i ==> s[j] < s[i])
}

/// The peak index itself, well defined because the first maximum is unique.
pub open spec fn peak_index_spec(s: Seq<u64>) -> int {
    choose|i: int| is_first_peak(s, i)
}

/// Parabolic-interpolation offset `0.5 * (l - r) / (l - 2c + r)` around a
/// peak, in Q16 bins, carried out in integers. The fit is trusted only when
/// the parabola is concave and the offset lands within half a bin of the
/// center — which a fit through a true local maximum always does; a
/// degenerate fit (zero or wrong-sign curvature, or an oversized offset,
/// both possible only when the unsearched DC bin towers over the peak's
/// left neighborhood) falls back to the unrefined bin, offset zero.
pub open spec fn delta_q16_spec(l: int, c: int, r: int) -> int {
    let curvature = 2 * c - (l + r);
    if curvature <= 0 {
        0
    } else {
        let m = (if r >= l {
            r - l
        } else {
            l - r
        }) * 32768 / curvature;
        if m > 32768 {
            0
        } else if r >= l {
            m
        } else {
            -m
        }
    }
}

/// Refined peak position in Q16 bins: sub-bin interpolation on the three
/// magnitudes around the peak, applied only strictly inside the spectrum.
pub open spec fn bin_q16_spec(s: Seq<u64>) -> int {
    let i = peak_index_spec(s);
    if 1 <= i < s.len() - 1 {
        i * 65536 + delta_q16_spec(s[i - 1] as int, s[i] as int, s[i + 1] as int)
    } else {
        i * 65536
    }
}

/// Bin position to frequency: `bin * sample_rate / window_size`, carried
/// out in millihertz on the Q16 bin scale.
pub open spec fn freq_millihz_spec(s: Seq<u64>, sample_rate: int, window_size: int) -> int {
    bin_q16_spec(s) * sample_rate * 1000 / (window_size * 65536)
}

/// The whole estimation policy: silence gate first, then peak search and
/// refinement, then the audible floor.
pub open spec fn estimate_spec(
    s: Seq<u64>,
    rms_fx: int,
    threshold_fx: int,
    sample_rate: int,
    window_size: int,
) -> Option<u64> {
    if rms_fx <= threshold_fx {
        None
    } else if freq_millihz_spec(s, sample_rate, window_size) <= MIN_FREQ_MILLIHZ {
        None
    } else {
        Some(freq_millihz_spec(s, sample_rate, window_size) as u64)
    }
}

/// The first maximum is unique.
pub proof fn lemma_first_peak_unique(s: Seq<u64>, i: int, j: int)
    requires
        is_first_peak(s, i),
        is_first_peak(s, j),
    ensures
        i == j,
{
    if i < j {
        assert(s[i] < s[j]);
        assert(s[j] <= s[i]);
    }
    if j < i {
        assert(s[j] < s[i]);
        assert(s[i] <= s[j]);
    }
}

/// Stable maximum search over bins `[1, len)`: the first occurrence of the
/// largest magnitude wins; the DC bin never competes.
pub fn find_peak(s: &Vec<u64>) -> (r: usize)
    requires
        2 <= s@.len(),
    ensures
        is_first_peak(s@, r as int),
        r == peak_index_spec(s@),
{
    let n = s.len();
    let mut best: usize = 1;
    let mut i: usize = 2;
    while i < n
        invariant
            n == s@.len(),
            2 <= n,
            1 <= best < i,
            2 <= i <= n,
            forall|j: int| 1 <= j < i ==> s@[j] <= s@[best as int],
            forall|j: int| 1 <= j < best ==> s@[j] < s@[best as int],
        decreases n - i,
    {
        if s[i] > s[best] {
            best = i;
        }
        i = i + 1;
    }
    proof {
        assert(is_first_peak(s@, best as int));
        let w = peak_index_spec(s@);
        assert(is_first_peak(s@, w));
        lemma_first_peak_unique(s@, best as int, w);
    }
    best
}

/// Estimate the fundamental: reject sub-threshold frames without searching,
/// locate and refine the dominant peak, convert to millihertz, and reject
/// anything at or below the audible floor.
pub fn estimate(
    s: &Vec<u64>,
    rms_fx: u64,
    threshold_fx: u64,
    sample_rate: u32,
    window_size: usize,
) -> (r: Option<u64>)
    requires
        2 <= s@.len(),
        window_size == 2 * s@.len(),
        window_size <= 65536,
        1 <= sample_rate <= SAMPLE_RATE_MAX,
        forall|j: int| 0 <= j < s@.len() ==> s@[j] <= MAG_MAX,
    ensures
        r == estimate_spec(
            s@,
            rms_fx as int,
            threshold_fx as int,
            sample_rate as int,
            window_size as int,
        ),
        r is Some ==> MIN_FREQ_MILLIHZ < r->Some_0 <= 200_000_000,
{
    if rms_fx <= threshold_fx {
        return None;
    }
    let idx = find_peak(s);
    let delta_q16: i64 = if idx < s.len() - 1 {
        let l: u64 = s[idx - 1];
        let c: u64 = s[idx];
        let rr: u64 = s[idx + 1];
        proof {
            assert(s@[idx - 1] <= MAG_MAX);
            assert(s@[idx as int] <= MAG_MAX);
            assert(s@[idx + 1] <= MAG_MAX);
        }
        if 2 * c <= l + rr {
            0
        } else {
            let curvature: u64 = 2 * c - (l + rr);
            let spread: u64 = if rr >= l {
                rr - l
            } else {
                l - rr
            };
            proof {
                lemma_mul_upper_bound(spread as int, MAG_MAX as int, 32768, 32768);
            }
            let m: u64 = (spread * 32768) / curvature;
            if m > 32768 {
                0
            } else if rr >= l {
                m as i64
            } else {
                -(m as i64)
            }
        }
    } else {
        0
    };
    proof {
        let i = idx as int;
        if i < s@.len() - 1 {
            assert(delta_q16 == delta_q16_spec(s@[i - 1] as int, s@[i] as int, s@[i + 1] as int));
        }
    }
    proof {
        lemma_mul_inequality(idx as int, window_size as int - 1, 65536);
    }
    let bin_q16: i64 = (idx as i64) * 65536 + delta_q16;
    assert(bin_q16 == bin_q16_spec(s@));
    assert(0 < bin_q16 <= 0x1_0000_0000i64);
    proof {
        lemma_mul_upper_bound(bin_q16 as int, 0x1_0000_0000, sample_rate as int, 200_000);
        lemma_mul_upper_bound(
            bin_q16 as int * sample_rate as int,
            0x1_0000_0000int * 200_000,
            1000,
            1000,
        );
        lemma_mul_inequality(window_size as int, 65536, 65536);
        lemma_mul_nonnegative(bin_q16 as int, sample_rate as int);
    }
    let num: u64 = (bin_q16 as u64) * (sample_rate as u64) * 1000;
    let freq_millihz: u64 = num / ((window_size as u64) * 65536);
    assert(freq_millihz == freq_millihz_spec(s@, sample_rate as int, window_size as int));
    proof {
        let divisor = window_size as int * 65536;
        let rate1000 = sample_rate as int * 1000;
        assert(bin_q16 as int <= divisor);
        lemma_mul_inequality(bin_q16 as int, divisor, rate1000);
        assert(bin_q16 as int * (sample_rate as int * 1000) == bin_q16 as int * sample_rate as int
            * 1000) by (nonlinear_arith);
        vstd::arithmetic::div_mod::lemma_div_is_ordered(num as int, divisor * rate1000, divisor);
        vstd::arithmetic::div_mod::lemma_div_multiples_vanish(rate1000, divisor);
        assert(freq_millihz <= rate1000);
    }
    if freq_millihz <= MIN_FREQ_MILLIHZ {
        None
    } else {
        Some(freq_millihz)
    }
}

} // verus!
