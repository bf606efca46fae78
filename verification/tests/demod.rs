//! Tests of the filters, the decimator and the audio tail.
use hl2::receiver::config::{Mode, ReceiverConfig, Sideband};
use hl2::receiver::demod::engine::AudioEngine;
use hl2::receiver::demod::fir::{apply, odd_tap_count};
use hl2::receiver::demod::fir_state::{DelayLine, FirState};
use hl2::receiver::demod::plan::{
    ensure_decimable, make_plan, CoreKind, InvalidBlockLength, RateTooClose,
};
use hl2::receiver::demod::polyphase::PolyphaseDecimator;
use hl2::receiver::sink::{AudioSink, VecSink};

const KAISER_BETA: f64 = 12.0;

fn bessel_i0(x: f64) -> f64 {
    let mut sum = 1.0;
    let mut term = 1.0;
    let half = x / 2.0;
    for k in 1..=30 {
        term *= (half / k as f64).powi(2);
        sum += term;
    }
    sum
}

fn kaiser(i: usize, n: usize, beta: f64) -> f64 {
    let r = 2.0 * i as f64 / (n as f64 - 1.0) - 1.0;
    bessel_i0(beta * (1.0 - r * r).max(0.0).sqrt()) / bessel_i0(beta)
}

fn lowpass(tap_count: usize, ratio: f64, beta: f64) -> Vec<f32> {
    let n = odd_tap_count(tap_count);
    let mut taps = Vec::with_capacity(n);
    let mut norm = 0.0f64;
    for i in 0..n {
        let t = i as f64 - (n as f64 - 1.0) / 2.0;
        let h = if t.abs() < 1e-9 {
            ratio
        } else {
            (std::f64::consts::PI * ratio * t).sin() / (std::f64::consts::PI * t)
        } * kaiser(i, n, beta);
        norm += h;
        taps.push(h as f32);
    }
    let scale = (1.0 / norm) as f32;
    for t in taps.iter_mut() {
        *t *= scale;
    }
    taps
}

fn mac(acc: f32, h: f32, x: f32) -> f32 {
    acc + h * x
}

fn plus(a: f32, b: f32) -> f32 {
    a + b
}

fn decimate_matches_full_rate() {
    for (m, taps_n) in [(1usize, 31usize), (2, 40), (4, 257), (8, 97)] {
        let h = lowpass(taps_n, 0.02, KAISER_BETA);
        let mut poly = PolyphaseDecimator::new(&h, m, 0.0f32);
        let mut seed = 0x1234_5678u64;
        let mut next_x = move || {
            seed = seed.wrapping_mul(63_641).wrapping_add(1_357_911);
            ((seed >> 40) as f64 / 8_388_608.0 - 1.0) as f32
        };
        let mut hist: Vec<f32> = Vec::new();
        let mut emitted = 0usize;
        const N: usize = 1200;
        for n in 0..N {
            let x = next_x();
            hist.push(x);
            let got = poly.push(x, mac, plus);
            if (n + 1) % m == 0 {
                let got = got.expect("polyphase must emit every M-th sample");
                let mut want = 0.0f64;
                for (j, hj) in h.iter().enumerate() {
                    if (j as i64) <= (n as i64) {
                        want += (*hj as f64) * (hist[n - j] as f64);
                    }
                }
                emitted += 1;
                assert!(
                    (got - want as f32).abs() < 1e-4,
                    "m={m} n={n} ({emitted}th emit): got {got} want {}",
                    want as f32
                );
            } else {
                assert!(got.is_none(), "m={m} n={n}: unexpected early emit");
            }
        }
        assert_eq!(emitted, N / m);
    }
}

#[test]
fn demod_polyphase_matches_fullfir_decimate() {
    decimate_matches_full_rate();
}

#[test]
fn dsp_polyphase_matches_fullfir_decimate() {
    decimate_matches_full_rate();
}

fn streaming_matches_apply() {
    let taps = lowpass(31, 0.03, KAISER_BETA);
    let mut st = FirState::new_taps(&taps, 0.0f32);
    let mut hist: Vec<f32> = Vec::new();
    let mut seed = 0.123456_f64;
    for step in 0..60 {
        seed = (seed * 1_103.0 + 19.0) % 100.0 - 50.0;
        let x = (seed / 50.0) as f32;
        hist.push(x);
        let got = st.convolve(x, mac);
        let want = apply(&taps, &hist, hist.len() - 1, 0.0f32, mac);
        assert!(
            (got - want).abs() < 1e-4,
            "convolve diverged at step {step}: got {got} want {want}"
        );
    }
}

#[test]
fn demod_firstate_matches_reference_apply() {
    streaming_matches_apply();
}

#[test]
fn dsp_firstate_matches_reference_apply() {
    streaming_matches_apply();
}

#[test]
fn firstate_retap_resets_history_and_applies_new_taps() {
    let fir_a = lowpass(31, 0.03, KAISER_BETA);
    let mut st = FirState::new_taps(&fir_a, 0.0f32);
    for k in 0..64 {
        st.convolve((k % 7) as f32 / 7.0 - 0.5, mac);
    }
    let fir_b = lowpass(63, 0.03, KAISER_BETA);
    st.retap(&fir_b);
    assert_eq!(st.taps(), &fir_b[..]);
    let mut hist = Vec::new();
    for _ in 0..40 {
        hist.push(1.0f32);
        let got = st.convolve(1.0, mac);
        let want = apply(&fir_b, &hist, hist.len() - 1, 0.0f32, mac);
        assert!(
            (got - want).abs() < 1e-4,
            "retap out {got} != apply reference {want} at n={}",
            hist.len()
        );
    }
}

#[test]
fn polyphase_retap_preserves_m_and_resets_onset() {
    let h_a = lowpass(51, 0.02, KAISER_BETA);
    let m = 8;
    let mut poly = PolyphaseDecimator::new(&h_a, m, 0.0f32);
    for _ in 0..(m * 3 + 2) {
        poly.push(0.25, mac, plus);
    }
    let h_b = lowpass(97, 0.02, KAISER_BETA);
    poly.retap(&h_b, m);
    assert_eq!(poly.decimation(), m, "retap changed the decimation factor");
    let mut emitted = 0usize;
    let n_total = 12 * m + 7;
    for n in 0..n_total {
        let got = poly.push(1.0f32, mac, plus);
        if (n + 1) % m == 0 {
            let got = got.expect("polyphase must emit every M-th sample");
            emitted += 1;
            let mut want = 0.0f64;
            for (j, hj) in h_b.iter().enumerate() {
                if (j as i64) <= (n as i64) {
                    want += *hj as f64;
                }
            }
            assert!(
                (got as f64 - want).abs() < 1e-4,
                "retap onset n={n} ({emitted}th emit): got {got} want {want}"
            );
        } else {
            assert!(got.is_none(), "n={n}: unexpected early emit");
        }
    }
    assert_eq!(emitted, n_total / m, "retap broke M:1 decimation");
}

fn mac_int(acc: i64, h: i64, x: i64) -> i64 {
    acc + h * x
}

fn plus_int(a: i64, b: i64) -> i64 {
    a + b
}

#[test]
fn decimator_in_integers() {
    let h = [1i64, 10, 100, 1_000, 10_000];
    let mut poly = PolyphaseDecimator::new(&h, 2, 0i64);
    assert_eq!(poly.branch_taps(0), &[1, 100, 10_000]);
    assert_eq!(poly.branch_taps(1), &[10, 1_000]);
    let outs: Vec<Option<i64>> = (1..=6).map(|x| poly.push(x, mac_int, plus_int)).collect();
    assert_eq!(outs, vec![None, Some(12), None, Some(1_234), None, Some(23_456)]);
}

#[test]
fn decimator_with_fewer_taps_than_branches() {
    let mut poly = PolyphaseDecimator::new(&[3i64], 3, 0);
    assert!(poly.branch_taps(1).is_empty());
    let outs: Vec<Option<i64>> = (1..=6).map(|x| poly.push(x, mac_int, plus_int)).collect();
    assert_eq!(outs, vec![None, None, Some(9), None, None, Some(18)]);
}

#[test]
fn two_arms_complete_their_groups_together() {
    let mut i = PolyphaseDecimator::new(&[1i64, 2, 3], 4, 0);
    let mut q = PolyphaseDecimator::new(&[1i64, 2, 3], 4, 0);
    for x in 0..40i64 {
        let a = i.push(x, mac_int, plus_int);
        let b = q.push(-x, mac_int, plus_int);
        assert_eq!(a.is_some(), b.is_some());
        assert_eq!(a, b.map(|v| -v));
    }
}

#[test]
fn convolution_at_the_edges_of_a_history() {
    let taps = [1i64, 10, 100];
    assert_eq!(apply(&taps, &[4, 5, 6], 0, 0, mac_int), 4);
    assert_eq!(apply(&taps, &[4, 5, 6], 1, 0, mac_int), 45);
    assert_eq!(apply(&taps, &[4, 5, 6], 2, 0, mac_int), 456);
    assert_eq!(apply(&taps, &[4, 5, 6], 3, 0, mac_int), 560);
    assert_eq!(apply(&taps, &[4, 5, 6], 5, 0, mac_int), 0);
    assert_eq!(apply(&taps, &[], 0, 0, mac_int), 0);
    assert_eq!(apply(&[], &[4], 0, 0, mac_int), 0);
}

#[test]
fn filter_without_taps_is_silent() {
    let mut st: FirState<i64> = FirState::new_taps(&[], 7);
    assert!(st.is_empty());
    assert_eq!(st.len(), 0);
    assert_eq!(st.convolve(5, mac_int), 7);
    assert_eq!(st.last_out(), 7);
}

#[test]
fn tap_counts_are_odd_and_at_least_seventeen() {
    assert_eq!(odd_tap_count(0), 17);
    assert_eq!(odd_tap_count(17), 17);
    assert_eq!(odd_tap_count(40), 41);
    assert_eq!(odd_tap_count(511), 511);
}

#[test]
fn delay_line_returns_each_sample_later() {
    let mut d = DelayLine::new(3, 0i64);
    let outs: Vec<i64> = (1..=6).map(|x| d.step(x)).collect();
    assert_eq!(outs, vec![0, 0, 0, 1, 2, 3]);
    let mut one = DelayLine::new(0, 9i64);
    assert_eq!((one.step(1), one.step(2)), (9, 1));
}

#[test]
fn audio_is_cut_into_blocks() {
    let mut tail: AudioEngine<i64> = AudioEngine::new();
    for x in 0..239 {
        tail.push(x);
    }
    assert!(tail.full_block().is_none());
    for x in 239..1_300 {
        tail.push(x);
    }
    let mut sizes = Vec::new();
    let mut seen = Vec::new();
    while let Some(block) = tail.full_block() {
        let n = block.len();
        seen.extend_from_slice(block);
        sizes.push(n);
        tail.written(n);
    }
    assert_eq!(sizes, vec![1_024, 276]);
    assert_eq!(seen, (0..1_300).collect::<Vec<i64>>());
    assert!(tail.residue().is_none());
    tail.push(5);
    assert_eq!(tail.residue(), Some(&[5i64][..]));
}

/// A sink that takes a number of blocks and then no more.
struct Failing {
    left: usize,
    got: Vec<usize>,
}

impl AudioSink for Failing {
    type Error = Box<dyn std::error::Error + Send + Sync>;

    fn write(&mut self, samples: &[i16]) -> Result<usize, Self::Error> {
        if self.left == 0 {
            return Err(std::io::Error::other("write failed").into());
        }
        self.left -= 1;
        self.got.push(samples.len());
        Ok(samples.len())
    }
}

fn double(block: Vec<i64>, gain: i64) -> (Vec<i16>, i64) {
    (block.iter().map(|v| (v * gain) as i16).collect(), gain + 1)
}

#[test]
fn blocks_are_levelled_and_written() {
    let mut tail: AudioEngine<i64> = AudioEngine::new();
    let every_other = |n: u64, x: i64| (n + 1, if n % 2 == 1 { Some(x) } else { None });
    let block: Vec<i64> = (0..5_000).collect();
    assert_eq!(tail.feed(0u64, &block, &every_other), 5_000);
    let mut sink = VecSink::new();
    let (gain, done) = tail.emit_full_blocks(1, &mut sink, &double);
    assert_eq!((gain, done.unwrap()), (4, 2_500));
    assert_eq!(sink.samples()[..3], [1, 3, 5]);
    assert_eq!(sink.samples()[1_024], 2 * 2_049);
    assert!(tail.residue().is_none());
    tail.push(7);
    let (gain, done) = tail.emit_full_blocks(gain, &mut sink, &double);
    assert_eq!((gain, done.unwrap()), (4, 0));
    let (gain, done) = tail.flush_residue(gain, &mut sink, &double);
    assert_eq!((gain, done.unwrap()), (5, 1));
    assert_eq!(sink.samples().last(), Some(&28));
    let (gain, done) = tail.flush_residue(gain, &mut sink, &double);
    assert_eq!((gain, done.unwrap()), (5, 0));
}

#[test]
fn blocks_that_a_sink_refuses_stay() {
    let mut tail: AudioEngine<i64> = AudioEngine::new();
    for x in 0..2_100 {
        tail.push(x);
    }
    let mut sink = Failing { left: 1, got: Vec::new() };
    let (gain, done) = tail.emit_full_blocks(1, &mut sink, &double);
    assert_eq!(gain, 3);
    let e = done.unwrap_err();
    assert!(e.downcast_ref::<std::io::Error>().is_some());
    assert_eq!(format!("{e}"), "write failed");
    assert_eq!(sink.got, vec![1_024]);
    assert_eq!(tail.residue().unwrap().len(), 1_076);
    assert_eq!(tail.residue().unwrap()[0], 1_024);
    let (_, done) = tail.flush_residue(1, &mut sink, &double);
    assert!(done.is_err());
    assert_eq!(tail.residue().unwrap().len(), 1_076);
}

#[test]
fn rates_that_are_too_close_are_refused() {
    assert_eq!(ensure_decimable(19_200, 4_800), Ok(()));
    let e = RateTooClose { src: 19_199, audio: 4_800 };
    assert_eq!(ensure_decimable(19_199, 4_800), Err(e));
    assert_eq!(
        e.message(),
        "demod: source rate 19199 Hz must be at least 4× the audio rate 4800 Hz"
    );
    assert_eq!(
        InvalidBlockLength(63).message(),
        "demod: block length 63 must be even (complex pairs)"
    );
    let c = ReceiverConfig { source_rate_hz: 10_000, ..ReceiverConfig::default() };
    assert_eq!(make_plan(&c).unwrap_err(), RateTooClose { src: 10_000, audio: 4_800 });
}

#[test]
fn plans_follow_the_mode() {
    let base = ReceiverConfig { source_rate_hz: 192_000, ..ReceiverConfig::default() };
    let plan = |mode: Mode, width: Option<u32>, audio: u32| {
        make_plan(&ReceiverConfig { mode, bandwidth_hz: width, audio_rate_hz: audio, ..base })
            .unwrap()
    };
    let p = plan(Mode::Ssb(Sideband::Lsb), None, 4_800);
    assert_eq!(p.core, CoreKind::Phasing(Sideband::Lsb));
    assert_eq!((p.label, p.decimation, p.channel_hz), ("ssb-lsb", 40, 2_600));
    assert_eq!((p.taps, p.shifter_taps, p.arm_delay), (257, 257, 128));
    let p = plan(Mode::Ssb(Sideband::Usb), Some(6_000), 4_800);
    assert_eq!((p.label, p.taps, p.shifter_taps, p.arm_delay), ("ssb-usb", 129, 257, 128));
    let p = plan(Mode::Am, None, 4_800);
    assert_eq!((p.core, p.label), (CoreKind::Envelope, "am"));
    assert_eq!((p.channel_hz, p.taps, p.arm_delay), (8_000, 129, 0));
    let p = plan(Mode::Fm, None, 4_800);
    assert_eq!((p.core, p.label, p.channel_hz), (CoreKind::PhaseRate, "fm", 15_000));
    let p = plan(Mode::FmNarrow, None, 4_800);
    assert_eq!((p.label, p.channel_hz, p.taps), ("nfm", 5_000, 129));
    for (mode, label) in [(Mode::Ft8, "ft8"), (Mode::Js8, "js8"), (Mode::Ft4, "ft4")] {
        let p = plan(mode, Some(9_000), 12_000);
        assert_eq!(p.core, CoreKind::InPhase);
        assert_eq!((p.label, p.decimation, p.channel_hz, p.taps), (label, 16, 2_600, 511));
        assert_eq!(mode.sideband(), Some(Sideband::Usb));
        assert_eq!(mode.default_bandwidth_hz(), 2_600);
    }
    assert_eq!(Mode::Am.sideband(), None);
    assert_eq!(Mode::Ssb(Sideband::Lsb).sideband(), Some(Sideband::Lsb));
    assert!(Sideband::Usb.adds_quadrature());
    assert!(!Sideband::Lsb.adds_quadrature());
    assert_eq!(base.bandwidth(), 2_600);
    assert_eq!(ReceiverConfig::default().source_rate_hz, 96_000);
}
