//! The pitch engine: owns the sliding sample window, prepares windowed
//! frames for the spectral transform, and turns a magnitude spectrum into
//! a pitch report. The spectral transform itself is an external numeric
//! primitive that runs between `prepare` and `complete`; every decision on
//! either side of it is made and proved here.

use vstd::prelude::*;
use crate::analyzer::{apply_window, rms_fx, rms_fx_spec, windowed_spec, FX_ONE, SAMPLE_FX_MAX};
use crate::buffer::{lemma_fifo, push_all_model, SampleBuffer};
use crate::estimator::{estimate, estimate_spec, MAG_MAX, SAMPLE_RATE_MAX};
use crate::note::{cents_milli_spec, map_note, octave_spec, pitch_class_spec, Note};
use crate::tuning::{note_number_milli, note_number_milli_spec};

verus! {

/// Designed analysis window length, in samples.
pub const WINDOW_SIZE: usize = 8192;

/// Designed hop between successive analysis frames, in samples.
pub const HOP_SIZE: usize = 1024;

/// Designed silence gate: RMS amplitude 0.02 in Q16, rounded.
pub const THRESHOLD_FX: u64 = 1311;

/// The frame after the analysis window has been applied, element by element.
pub open spec fn windowed_seq(frame: Seq<i64>, coeffs: Seq<i64>) -> Seq<i64> {
    Seq::new(frame.len(), |i: int| windowed_spec(frame[i] as int, coeffs[i] as int) as i64)
}

/// The note a frequency maps to.
pub open spec fn note_of_freq_spec(freq_millihz: int) -> Note {
    let nn = note_number_milli_spec(freq_millihz);
    Note {
        pitch_class: pitch_class_spec(nn) as usize,
        octave: octave_spec(nn) as i32,
        cents_milli: cents_milli_spec(nn) as i64,
    }
}

/// One report per estimation cycle: either the detected pitch or the
/// designated no-pitch value, which tells the consumer that the engine ran
/// and found silence or noise.
#[derive(PartialEq, Eq, Structural, Clone, Copy, Debug)]
pub enum PitchReport {
    NoPitch,
    Pitch { note: Note, freq_millihz: u64, rms_fx: u64 },
}

/// What one completed cycle reports, given the spectrum and frame RMS.
pub open spec fn report_spec(
    spectrum: Seq<u64>,
    rms: int,
    threshold: int,
    sample_rate: int,
    window_size: int,
) -> PitchReport {
    match estimate_spec(spectrum, rms, threshold, sample_rate, window_size) {
        Option::None => PitchReport::NoPitch,
        Option::Some(f) => PitchReport::Pitch {
            note: note_of_freq_spec(f as int),
            freq_millihz: f,
            rms_fx: rms as u64,
        },
    }
}

/// The estimation pipeline around the external spectral transform.
pub struct PitchEngine {
    buffer: SampleBuffer,
    coeffs: Vec<i64>,
    sample_rate: u32,
    threshold_fx: u64,
    hop: usize,
}

impl PitchEngine {
    /// The buffered samples, oldest first.
    pub closed spec fn samples(&self) -> Seq<i64> {
        self.buffer.view()
    }

    /// The analysis window coefficients.
    pub closed spec fn coeffs_view(&self) -> Seq<i64> {
        self.coeffs@
    }

    pub closed spec fn window_size(&self) -> nat {
        self.coeffs@.len()
    }

    pub closed spec fn hop_spec(&self) -> nat {
        self.hop as nat
    }

    pub closed spec fn sample_rate_spec(&self) -> int {
        self.sample_rate as int
    }

    pub closed spec fn threshold_spec(&self) -> int {
        self.threshold_fx as int
    }

    pub closed spec fn wf(&self) -> bool {
        &&& self.buffer.wf()
        &&& self.buffer.cap() == self.coeffs@.len()
        &&& 4 <= self.coeffs@.len() <= 32768
        &&& self.coeffs@.len() % 2 == 0
        &&& 1 <= self.hop <= self.coeffs@.len()
        &&& 1 <= self.sample_rate <= SAMPLE_RATE_MAX
        &&& (forall|i: int| 0 <= i < self.coeffs@.len() ==> 0 <= #[trigger] self.coeffs@[i] <= FX_ONE)
        &&& (forall|i: int|
            0 <= i < self.buffer.view().len() ==> -SAMPLE_FX_MAX <= #[trigger] self.buffer.view()[i]
                <= SAMPLE_FX_MAX)
    }

    /// Build an engine from its fixed configuration: the window coefficient
    /// table (whose length is the window size), the hop, the sample rate,
    /// and the silence threshold.
    pub fn new(coeffs: Vec<i64>, hop: usize, sample_rate: u32, threshold_fx: u64) -> (r:
        PitchEngine)
        requires
            4 <= coeffs@.len() <= 32768,
            coeffs@.len() % 2 == 0,
            1 <= hop <= coeffs@.len(),
            1 <= sample_rate <= SAMPLE_RATE_MAX,
            forall|i: int| 0 <= i < coeffs@.len() ==> 0 <= #[trigger] coeffs@[i] <= FX_ONE,
        ensures
            r.wf(),
            r.samples() == Seq::<i64>::empty(),
            r.coeffs_view() == coeffs@,
            r.window_size() == coeffs@.len(),
            r.hop_spec() == hop,
            r.sample_rate_spec() == sample_rate,
            r.threshold_spec() == threshold_fx,
    {
        let n = coeffs.len();
        PitchEngine { buffer: SampleBuffer::new(n), coeffs, sample_rate, threshold_fx, hop }
    }

    pub fn buffered_len(&self) -> (r: usize)
        ensures
            r == self.samples().len(),
    {
        self.buffer.len()
    }

    /// Whether a full analysis window is buffered.
    pub fn ready(&self) -> (r: bool)
        requires
            self.wf(),
        ensures
            r == (self.samples().len() >= self.window_size()),
    {
        self.buffer.is_ready()
    }

    /// Drain a batch of samples into the sliding window, oldest evicted
    /// first once the window is full.
    pub fn ingest(&mut self, xs: &Vec<i64>)
        requires
            old(self).wf(),
            forall|i: int|
                0 <= i < xs@.len() ==> -SAMPLE_FX_MAX <= #[trigger] xs@[i] <= SAMPLE_FX_MAX,
        ensures
            final(self).wf(),
            final(self).samples() == push_all_model(
                old(self).samples(),
                xs@,
                old(self).window_size(),
            ),
            final(self).coeffs_view() == old(self).coeffs_view(),
            final(self).window_size() == old(self).window_size(),
            final(self).hop_spec() == old(self).hop_spec(),
            final(self).sample_rate_spec() == old(self).sample_rate_spec(),
            final(self).threshold_spec() == old(self).threshold_spec(),
    {
        proof {
            lemma_fifo(self.buffer.view(), xs@, self.buffer.cap());
        }
        let ghost s = self.buffer.view();
        let ghost cap = self.buffer.cap();
        self.buffer.push_all(xs);
        proof {
            let t = self.buffer.view();
            if s.len() + xs@.len() <= cap {
                assert(t == s + xs@);
                assert forall|i: int| 0 <= i < t.len() implies -SAMPLE_FX_MAX <= #[trigger] t[i]
                    <= SAMPLE_FX_MAX by {
                    if i < s.len() {
                        assert(t[i] == s[i]);
                    } else {
                        assert(t[i] == xs@[i - s.len()]);
                    }
                }
            } else {
                let lo = s.len() + xs@.len() - cap;
                assert(t == (s + xs@).subrange(lo as int, (s.len() + xs@.len()) as int));
                assert forall|i: int| 0 <= i < t.len() implies -SAMPLE_FX_MAX <= #[trigger] t[i]
                    <= SAMPLE_FX_MAX by {
                    assert(t[i] == (s + xs@)[i + lo]);
                    if i + lo < s.len() {
                        assert((s + xs@)[i + lo] == s[i + lo]);
                    } else {
                        assert((s + xs@)[i + lo] == xs@[i + lo - s.len()]);
                    }
                }
            }
        }
    }

    /// One cycle's front half: window the buffered frame, compute its RMS,
    /// and slide the window forward by exactly one hop. The returned frame
    /// is what the spectral transform consumes.
    pub fn prepare(&mut self) -> (r: (Vec<i64>, u64))
        requires
            old(self).wf(),
            old(self).samples().len() >= old(self).window_size(),
        ensures
            final(self).wf(),
            r.0@ == windowed_seq(old(self).samples(), old(self).coeffs_view()),
            r.0@.len() == old(self).window_size(),
            forall|i: int| 0 <= i < r.0@.len() ==> -SAMPLE_FX_MAX <= #[trigger] r.0@[i]
                <= SAMPLE_FX_MAX,
            r.1 == rms_fx_spec(windowed_seq(old(self).samples(), old(self).coeffs_view())),
            final(self).samples() == old(self).samples().subrange(
                old(self).hop_spec() as int,
                old(self).samples().len() as int,
            ),
            final(self).samples().len() == old(self).window_size() - old(self).hop_spec(),
            final(self).coeffs_view() == old(self).coeffs_view(),
            final(self).window_size() == old(self).window_size(),
            final(self).hop_spec() == old(self).hop_spec(),
            final(self).sample_rate_spec() == old(self).sample_rate_spec(),
            final(self).threshold_spec() == old(self).threshold_spec(),
    {
        let frame = self.buffer.snapshot();
        let windowed = apply_window(&frame, &self.coeffs);
        proof {
            assert(windowed@ =~= windowed_seq(self.buffer.view(), self.coeffs@));
        }
        let rms = rms_fx(&windowed);
        self.buffer.advance(self.hop);
        proof {
            let ghost t = self.buffer.view();
            assert forall|i: int| 0 <= i < t.len() implies -SAMPLE_FX_MAX <= #[trigger] t[i]
                <= SAMPLE_FX_MAX by {
                assert(t[i] == old(self).samples()[i + old(self).hop_spec()]);
            }
        }
        (windowed, rms)
    }

    /// Whether the frame is loud enough that the cycle's back half — the
    /// spectral transform and `complete` — is worth running. When it is
    /// not, the cycle's report is `silent_report`.
    pub fn needs_spectrum(&self, rms_fx: u64) -> (r: bool)
        ensures
            r == (rms_fx > self.threshold_spec()),
    {
        rms_fx > self.threshold_fx
    }

    /// The designated no-pitch report for a cycle whose frame was gated out.
    pub fn silent_report(&self, rms_fx: u64) -> (r: PitchReport)
        requires
            rms_fx <= self.threshold_spec(),
        ensures
            r == PitchReport::NoPitch,
            forall|s: Seq<u64>, sr: int, w: int| r == report_spec(
                s,
                rms_fx as int,
                self.threshold_spec(),
                sr,
                w,
            ),
    {
        PitchReport::NoPitch
    }

    /// One cycle's back half: estimate the fundamental from the magnitude
    /// spectrum and the frame RMS, and map it to a note; silence and
    /// sub-floor frequencies yield the no-pitch report.
    pub fn complete(&self, spectrum: &Vec<u64>, rms_fx: u64) -> (r: PitchReport)
        requires
            self.wf(),
            spectrum@.len() * 2 == self.window_size(),
            forall|i: int| 0 <= i < spectrum@.len() ==> #[trigger] spectrum@[i] <= MAG_MAX,
        ensures
            r == report_spec(
                spectrum@,
                rms_fx as int,
                self.threshold_spec(),
                self.sample_rate_spec(),
                self.window_size() as int,
            ),
    {
        let est = estimate(spectrum, rms_fx, self.threshold_fx, self.sample_rate, self.coeffs.len());
        match est {
            Option::None => PitchReport::NoPitch,
            Option::Some(f) => {
                let nn = note_number_milli(f);
                let note = map_note(nn);
                PitchReport::Pitch { note, freq_millihz: f, rms_fx }
            },
        }
    }
}

/// A frame whose RMS does not clear the threshold is reported as no pitch,
/// whatever its spectrum holds.
pub proof fn lemma_silent_frame_reports_no_pitch(
    spectrum: Seq<u64>,
    rms: int,
    threshold: int,
    sample_rate: int,
    window_size: int,
)
    requires
        rms <= threshold,
    ensures
        estimate_spec(spectrum, rms, threshold, sample_rate, window_size) is None,
        report_spec(spectrum, rms, threshold, sample_rate, window_size) == PitchReport::NoPitch,
{
}

/// A frame of pure digital silence has zero RMS, clears no non-negative
/// threshold, and is reported as no pitch whatever its spectrum holds.
pub proof fn lemma_zero_frame_reports_no_pitch(
    frame: Seq<i64>,
    spectrum: Seq<u64>,
    threshold: int,
    sample_rate: int,
    window_size: int,
)
    requires
        1 <= frame.len(),
        forall|i: int| 0 <= i < frame.len() ==> #[trigger] frame[i] == 0,
        0 <= threshold,
    ensures
        rms_fx_spec(frame) == 0,
        report_spec(spectrum, rms_fx_spec(frame), threshold, sample_rate, window_size)
            == PitchReport::NoPitch,
{
    crate::analyzer::lemma_rms_of_zero_frame(frame);
}

/// The reference pitch maps to A4 with zero deviation.
pub proof fn lemma_a4_note()
    ensures
        note_of_freq_spec(440_000) == (Note { pitch_class: 9, octave: 4, cents_milli: 0 }),
{
    crate::tuning::lemma_note_number_at_reference();
}

/// One octave above the reference maps to A5 with zero deviation.
pub proof fn lemma_a5_note()
    ensures
        note_of_freq_spec(880_000) == (Note { pitch_class: 9, octave: 5, cents_milli: 0 }),
{
    crate::tuning::lemma_note_number_octave_up();
}

} // verus!
