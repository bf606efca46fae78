//! Tests of the level of decoding windows.
use hl2::receiver::level;

const PEAK_TARGET: f32 = 0.85;

fn peak_normalize(window: &mut Vec<f32>) -> f32 {
    let greater = |a: f32, b: f32| a > b;
    let gain = |peak: f32| if peak < 1e-9 { None } else { Some(PEAK_TARGET / peak) };
    let scale = |v: f32, g: f32| v * g;
    level::peak_normalize(window, 0.0, &f32::abs, &greater, &gain, &scale).unwrap_or(0.0)
}

#[test]
fn empty_window_is_silence() {
    let mut w: Vec<f32> = Vec::new();
    let g = peak_normalize(&mut w);
    assert_eq!(g, 0.0);
}

#[test]
fn silence_is_left_alone() {
    let mut w = vec![0.0f32; 1024];
    let g = peak_normalize(&mut w);
    assert_eq!(g, 0.0);
    assert!(w.iter().all(|&v| v == 0.0));
}

#[test]
fn sub_floor_residue_is_left_alone() {
    let mut w = vec![1e-12f32; 1024];
    let g = peak_normalize(&mut w);
    assert_eq!(g, 0.0);
    assert!(w.iter().all(|&v| v == 1e-12f32));
}

#[test]
fn quiet_signal_is_brought_to_target() {
    let mut w = vec![1e-5f32, -1e-5, 5e-6, -5e-6];
    let g = peak_normalize(&mut w);
    assert!((g - PEAK_TARGET / 1e-5).abs() < 1e-7, "g={g}");
    let mut peak: f32 = 0.0;
    for v in w.iter() {
        let a = v.abs();
        if a > peak {
            peak = a;
        }
    }
    assert!((peak - PEAK_TARGET).abs() < 1e-6, "peak={peak}");
    assert!((w[0].abs() / w[2].abs() - 2.0).abs() < 1e-3);
}

#[test]
fn loud_signal_is_brought_down_to_target() {
    let mut w = vec![2.0f32, -2.0, 1.5, -1.5];
    let g = peak_normalize(&mut w);
    assert!((g - PEAK_TARGET / 2.0).abs() < 1e-6, "g={g}");
    assert!((w[0].abs() - PEAK_TARGET).abs() < 1e-6);
}

#[test]
fn already_at_target_is_a_noop() {
    let mut w = vec![0.85f32, -0.85, 0.4, -0.4];
    let g = peak_normalize(&mut w);
    assert!((g - 1.0).abs() < 1e-6, "g={g}");
    assert!((w[0].abs() - PEAK_TARGET).abs() < 1e-6);
}

#[test]
fn sine_at_any_amplitude_landson_target() {
    for a in [1e-4f32, 1e-3, 1e-2, 0.1, 0.5, 1.0, 3.0] {
        let n = 12_000;
        let mut w = (0..n)
            .map(|i| a * (2.0 * std::f32::consts::PI * 1_500.0 * i as f32 / n as f32).sin())
            .collect::<Vec<_>>();
        let _ = peak_normalize(&mut w);
        let mut peak: f32 = 0.0;
        for v in w.iter() {
            let x = v.abs();
            if x > peak {
                peak = x;
            }
        }
        assert!((peak - PEAK_TARGET).abs() < 1e-3, "a={a} peak={peak}");
    }
}
