use num_complex::Complex;
use perfect_pitch::engine::{PitchEngine, PitchReport, HOP_SIZE, THRESHOLD_FX, WINDOW_SIZE};
use perfect_pitch::note::note_name;
use rustfft::FftPlanner;

const Q16: f32 = 65536.0;
const SAMPLE_RATE: u32 = 44_100;

fn hann_q16(n: usize) -> Vec<i64> {
    (0..n)
        .map(|i| {
            let w = 0.5
                * (1.0 - (2.0 * std::f32::consts::PI * i as f32 / (n as f32 - 1.0)).cos());
            ((w * Q16).round() as i64).clamp(0, 65536)
        })
        .collect()
}

fn sine_frame_q16(freq_hz: f32, amplitude: f32, n: usize) -> Vec<i64> {
    (0..n)
        .map(|i| {
            let t = i as f32 / SAMPLE_RATE as f32;
            let s = amplitude * (2.0 * std::f32::consts::PI * freq_hz * t).sin();
            (s * Q16).round() as i64
        })
        .collect()
}

fn spectrum_q16(windowed: &[i64]) -> Vec<u64> {
    let mut planner = FftPlanner::<f32>::new();
    let fft = planner.plan_fft_forward(windowed.len());
    let mut buf: Vec<Complex<f32>> =
        windowed.iter().map(|&w| Complex { re: w as f32 / Q16, im: 0.0 }).collect();
    fft.process(&mut buf);
    buf.iter().take(windowed.len() / 2).map(|c| (c.norm() * Q16).round().max(0.0) as u64).collect()
}

fn run_one_cycle(engine: &mut PitchEngine, samples: &Vec<i64>) -> PitchReport {
    engine.ingest(samples);
    assert!(engine.ready());
    let (frame, rms) = engine.prepare();
    if engine.needs_spectrum(rms) {
        let spectrum = spectrum_q16(&frame);
        engine.complete(&spectrum, rms)
    } else {
        engine.silent_report(rms)
    }
}

fn new_engine() -> PitchEngine {
    PitchEngine::new(hann_q16(WINDOW_SIZE), HOP_SIZE, SAMPLE_RATE, THRESHOLD_FX)
}

#[test]
fn round_trip_440_hz_sine_reads_a4() {
    let mut engine = new_engine();
    let samples = sine_frame_q16(440.0, 0.5, WINDOW_SIZE);
    let report = run_one_cycle(&mut engine, &samples);
    match report {
        PitchReport::Pitch { note, freq_millihz, rms_fx } => {
            assert_eq!(note_name(note.pitch_class), "A");
            assert_eq!(note.octave, 4);
            // Within half a hertz of the true frequency.
            assert!(
                (freq_millihz as i64 - 440_000).abs() <= 500,
                "freq_millihz = {freq_millihz}"
            );
            // Within two cents of dead on.
            assert!(note.cents_milli.abs() <= 2_000, "cents_milli = {}", note.cents_milli);
            assert!(rms_fx > THRESHOLD_FX);
        },
        PitchReport::NoPitch => panic!("expected a pitch report"),
    }
}

#[test]
fn sliding_window_advances_by_exactly_one_hop() {
    let mut engine = new_engine();
    let samples = sine_frame_q16(440.0, 0.5, WINDOW_SIZE);
    engine.ingest(&samples);
    assert_eq!(engine.buffered_len(), WINDOW_SIZE);
    let _ = engine.prepare();
    assert_eq!(engine.buffered_len(), WINDOW_SIZE - HOP_SIZE);
}

#[test]
fn sine_within_band_is_estimated_within_one_cent() {
    // One cent at f is a factor of 2^(1/1200). With an 8192-point window
    // at 44.1 kHz a bin is 5.38 Hz wide and the parabolic fit on linear
    // magnitudes is biased by up to about a twentieth of a bin, so the
    // one-cent bound is met from roughly 600 Hz up, and at any frequency
    // that falls near a bin center (436.08 Hz is one).
    let mut engine = new_engine();
    for &f in &[436.08f32, 659.25, 880.0, 987.77, 1318.51] {
        let samples = sine_frame_q16(f, 0.4, WINDOW_SIZE);
        let report = run_one_cycle(&mut engine, &samples);
        match report {
            PitchReport::Pitch { freq_millihz, .. } => {
                let got = freq_millihz as f64 / 1000.0;
                let cents = 1200.0 * (got / f as f64).log2();
                assert!(cents.abs() <= 1.0, "{f} Hz read as {got} Hz ({cents} cents)");
            },
            PitchReport::NoPitch => panic!("expected a pitch at {f} Hz"),
        }
    }
}

#[test]
fn all_zero_frame_reports_no_pitch() {
    let mut engine = new_engine();
    let samples: Vec<i64> = vec![0; WINDOW_SIZE];
    let report = run_one_cycle(&mut engine, &samples);
    assert_eq!(report, PitchReport::NoPitch);
}

#[test]
fn sub_threshold_frame_reports_no_pitch() {
    // A clean sine well under the 0.02 RMS gate is reported as silence.
    let mut engine = new_engine();
    let samples = sine_frame_q16(440.0, 0.001, WINDOW_SIZE);
    let report = run_one_cycle(&mut engine, &samples);
    assert_eq!(report, PitchReport::NoPitch);
}

#[test]
fn fifo_streaming_across_cycles_keeps_estimating() {
    // Stream two windows' worth of samples in odd-sized batches and run
    // cycles as they become available: every report reads A4.
    let mut engine = new_engine();
    let samples = sine_frame_q16(440.0, 0.5, 2 * WINDOW_SIZE);
    let mut reports = Vec::new();
    for chunk in samples.chunks(777) {
        let batch: Vec<i64> = chunk.to_vec();
        engine.ingest(&batch);
        while engine.ready() {
            let (frame, rms) = engine.prepare();
            if engine.needs_spectrum(rms) {
                let spectrum = spectrum_q16(&frame);
                reports.push(engine.complete(&spectrum, rms));
            } else {
                reports.push(engine.silent_report(rms));
            }
        }
    }
    // Batches can arrive while the window is already full; the FIFO then
    // evicts the oldest samples, so fewer cycles run than the sample count
    // alone would suggest.
    assert!(reports.len() >= 4, "got {} reports", reports.len());
    for report in reports {
        match report {
            PitchReport::Pitch { note, .. } => {
                assert_eq!(note_name(note.pitch_class), "A");
                assert_eq!(note.octave, 4);
            },
            PitchReport::NoPitch => panic!("expected a pitch every cycle"),
        }
    }
}
