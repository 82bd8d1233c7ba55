//! Frame preparation: apply the analysis window (a precomputed table of
//! Q16 weighting coefficients) to a sample frame, and compute the frame's
//! RMS amplitude, all in fixed point. Samples are Q16 values; a windowed
//! sample is `sample * coeff / 65536`, rounded toward minus infinity.

use vstd::prelude::*;
use vstd::arithmetic::div_mod::lemma_div_is_ordered;

verus! {

/// Q16 unity: the fixed-point value of 1.0.
pub const FX_ONE: i64 = 65536;

/// Largest admissible sample magnitude (Q16): amplitude 32, far beyond the
/// conventional [-1, 1] audio range, yet small enough that a window of a
/// million squared samples fits in `u64`.
pub const SAMPLE_FX_MAX: i64 = 0x20_0000;

/// Largest admissible frame length.
pub const FRAME_LEN_MAX: usize = 0x10_0000;

/// One windowed sample: the Q16 product of sample and coefficient.
pub open spec fn windowed_spec(s: int, c: int) -> int {
    s * c / 65536
}

/// Sum of squared samples of a frame.
pub open spec fn sum_squares_spec(s: Seq<i64>) -> int
    decreases s.len(),
{
    if s.len() == 0 {
        0
    } else {
        sum_squares_spec(s.drop_last()) + s.last() * s.last()
    }
}

/// Floor of the square root.
pub open spec fn sqrt_floor(n: nat) -> nat
    decreases n,
{
    if n == 0 {
        0
    } else {
        let p = sqrt_floor((n - 1) as nat);
        if (p + 1) * (p + 1) <= n {
            p + 1
        } else {
            p
        }
    }
}

/// RMS of a non-empty frame in Q16: the square root of the mean square.
/// A Q16 sample squared is a Q32 value, so the square root of the mean is
/// back on the Q16 scale.
pub open spec fn rms_fx_spec(s: Seq<i64>) -> int {
    sqrt_floor((sum_squares_spec(s) / s.len() as int) as nat) as int
}

/// `sqrt_floor` is what its name says.
pub proof fn lemma_sqrt_floor(n: nat)
    ensures
        sqrt_floor(n) * sqrt_floor(n) <= n,
        n < (sqrt_floor(n) + 1) * (sqrt_floor(n) + 1),
    decreases n,
{
    if n == 0 {
        assert(sqrt_floor(0) == 0);
        assert(n < (sqrt_floor(n) + 1) * (sqrt_floor(n) + 1)) by (nonlinear_arith)
            requires
                n == 0,
                sqrt_floor(n) == 0,
        ;
    } else {
        lemma_sqrt_floor((n - 1) as nat);
        let p = sqrt_floor((n - 1) as nat);
        assert(sqrt_floor(n) == if (p + 1) * (p + 1) <= n {
            p + 1
        } else {
            p
        });
        if (p + 1) * (p + 1) <= n {
            assert(sqrt_floor(n) == p + 1);
            assert(n <= (p + 1) * (p + 1));
            assert(n < (p + 2) * (p + 2)) by (nonlinear_arith)
                requires
                    n <= (p + 1) * (p + 1),
                    0 <= p,
            ;
            assert((sqrt_floor(n) + 1) * (sqrt_floor(n) + 1) == (p + 2) * (p + 2));
            assert(n < (sqrt_floor(n) + 1) * (sqrt_floor(n) + 1));
        } else {
            assert(sqrt_floor(n) == p);
            assert(p * p <= n - 1 < n);
            assert(n < (sqrt_floor(n) + 1) * (sqrt_floor(n) + 1));
        }
    }
}

/// The floor square root is unique.
pub proof fn lemma_sqrt_unique(a: nat, n: nat)
    requires
        a * a <= n,
        n < (a + 1) * (a + 1),
    ensures
        a == sqrt_floor(n),
{
    lemma_sqrt_floor(n);
    let b = sqrt_floor(n);
    if a < b {
        assert((a + 1) * (a + 1) <= b * b) by (nonlinear_arith)
            requires
                a + 1 <= b,
        ;
    }
    if b < a {
        assert((b + 1) * (b + 1) <= a * a) by (nonlinear_arith)
            requires
                b + 1 <= a,
        ;
    }
}

/// An all-zero frame has zero RMS.
pub proof fn lemma_rms_of_zero_frame(s: Seq<i64>)
    requires
        1 <= s.len(),
        forall|i: int| 0 <= i < s.len() ==> #[trigger] s[i] == 0,
    ensures
        rms_fx_spec(s) == 0,
{
    lemma_sum_squares_of_zeros(s);
    assert(sqrt_floor(0) == 0);
}

/// The sum of squares of an all-zero frame is zero.
pub proof fn lemma_sum_squares_of_zeros(s: Seq<i64>)
    requires
        forall|i: int| 0 <= i < s.len() ==> #[trigger] s[i] == 0,
    ensures
        sum_squares_spec(s) == 0,
    decreases s.len(),
{
    if s.len() > 0 {
        assert(s.last() == 0);
        lemma_sum_squares_of_zeros(s.drop_last());
    }
}

/// Sums of squares are non-negative.
pub proof fn lemma_sum_squares_nonneg(s: Seq<i64>)
    ensures
        0 <= sum_squares_spec(s),
    decreases s.len(),
{
    if s.len() > 0 {
        lemma_sum_squares_nonneg(s.drop_last());
        assert(0 <= s.last() * s.last()) by (nonlinear_arith);
    }
}

/// Element-wise application of the analysis window to a frame.
pub fn apply_window(frame: &Vec<i64>, coeffs: &Vec<i64>) -> (r: Vec<i64>)
    requires
        frame@.len() == coeffs@.len(),
        forall|i: int| 0 <= i < frame@.len() ==> -SAMPLE_FX_MAX <= #[trigger] frame@[i] <= SAMPLE_FX_MAX,
        forall|i: int| 0 <= i < coeffs@.len() ==> 0 <= #[trigger] coeffs@[i] <= FX_ONE,
    ensures
        r@.len() == frame@.len(),
        forall|i: int| 0 <= i < r@.len() ==> #[trigger] r@[i] == windowed_spec(
            frame@[i] as int,
            coeffs@[i] as int,
        ),
        forall|i: int| 0 <= i < r@.len() ==> -SAMPLE_FX_MAX <= #[trigger] r@[i] <= SAMPLE_FX_MAX,
{
    let n = frame.len();
    let mut out: Vec<i64> = Vec::new();
    let mut i: usize = 0;
    while i < n
        invariant
            i <= n,
            n == frame@.len(),
            n == coeffs@.len(),
            forall|j: int|
                0 <= j < n ==> -SAMPLE_FX_MAX <= #[trigger] frame@[j] <= SAMPLE_FX_MAX,
            forall|j: int| 0 <= j < n ==> 0 <= #[trigger] coeffs@[j] <= FX_ONE,
            out@.len() == i,
            forall|j: int| 0 <= j < i ==> #[trigger] out@[j] == windowed_spec(
                frame@[j] as int,
                coeffs@[j] as int,
            ),
            forall|j: int| 0 <= j < i ==> -SAMPLE_FX_MAX <= #[trigger] out@[j] <= SAMPLE_FX_MAX,
        decreases n - i,
    {
        let s: i64 = frame[i];
        let c: i64 = coeffs[i];
        proof {
            assert(-(0x20_0000i64 * 65536) <= s * c <= 0x20_0000i64 * 65536) by (nonlinear_arith)
                requires
                    -0x20_0000 <= s <= 0x20_0000,
                    0 <= c <= 65536,
            ;
            lemma_div_is_ordered(s as int * c as int, 0x20_0000i64 * 65536, 65536);
            lemma_div_is_ordered(-(0x20_0000i64 * 65536) as int, s as int * c as int, 65536);
        }
        let w: i64 = (s * c).checked_div_euclid(65536).unwrap();
        out.push(w);
        i = i + 1;
    }
    out
}

/// Sum of the squared samples of a frame.
pub fn sum_squares(frame: &Vec<i64>) -> (r: u64)
    requires
        frame@.len() <= FRAME_LEN_MAX,
        forall|i: int| 0 <= i < frame@.len() ==> -SAMPLE_FX_MAX <= #[trigger] frame@[i] <= SAMPLE_FX_MAX,
    ensures
        r == sum_squares_spec(frame@),
{
    let n = frame.len();
    let mut acc: u64 = 0;
    let mut i: usize = 0;
    while i < n
        invariant
            i <= n,
            n == frame@.len(),
            n <= FRAME_LEN_MAX,
            forall|j: int|
                0 <= j < n ==> -SAMPLE_FX_MAX <= #[trigger] frame@[j] <= SAMPLE_FX_MAX,
            acc == sum_squares_spec(frame@.subrange(0, i as int)),
            acc <= i * 0x400_0000_0000,
        decreases n - i,
    {
        let s: i64 = frame[i];
        proof {
            assert(0 <= s * s <= 0x400_0000_0000) by (nonlinear_arith)
                requires
                    -0x20_0000 <= s <= 0x20_0000,
            ;
            assert(frame@.subrange(0, i as int + 1).drop_last() =~= frame@.subrange(0, i as int));
            assert(frame@.subrange(0, i as int + 1).last() == frame@[i as int]);
            assert((i + 1) * 0x400_0000_0000 == i * 0x400_0000_0000 + 0x400_0000_0000)
                by (nonlinear_arith);
        }
        let sq: u64 = (s * s) as u64;
        acc = acc + sq;
        i = i + 1;
    }
    proof {
        assert(frame@.subrange(0, n as int) =~= frame@);
    }
    acc
}

/// Floor of the square root of a machine integer, by binary search.
pub fn isqrt(x: u64) -> (r: u64)
    ensures
        r == sqrt_floor(x as nat),
{
    let mut lo: u64 = 0;
    let mut hi: u64 = 0x1_0000_0000;
    proof {
        assert((0x1_0000_0000u64 as int) * (0x1_0000_0000u64 as int) > x as int);
    }
    while lo + 1 < hi
        invariant
            lo < hi,
            hi <= 0x1_0000_0000,
            (lo as int) * (lo as int) <= x as int,
            (x as int) < (hi as int) * (hi as int),
        decreases hi - lo,
    {
        let mid: u64 = lo + (hi - lo) / 2;
        proof {
            assert(mid as int * mid as int <= 0xFFFF_FFFFi64 * 0xFFFF_FFFFi64) by (nonlinear_arith)
                requires
                    0 <= mid as int <= 0xFFFF_FFFF,
            ;
        }
        if mid * mid <= x {
            lo = mid;
        } else {
            hi = mid;
        }
    }
    proof {
        lemma_sqrt_unique(lo as nat, x as nat);
    }
    lo
}

/// RMS amplitude of a non-empty frame, in Q16.
pub fn rms_fx(frame: &Vec<i64>) -> (r: u64)
    requires
        1 <= frame@.len() <= FRAME_LEN_MAX,
        forall|i: int| 0 <= i < frame@.len() ==> -SAMPLE_FX_MAX <= #[trigger] frame@[i] <= SAMPLE_FX_MAX,
    ensures
        r == rms_fx_spec(frame@),
{
    let ss = sum_squares(frame);
    proof {
        lemma_sum_squares_nonneg(frame@);
    }
    let mean: u64 = ss / (frame.len() as u64);
    isqrt(mean)
}

} // verus!
