use sdaa_data::ddc::DownConverter;
use sdaa_data::payload::N_PT_PER_FRAME;
use std::f64::consts::PI;

const LO_SCALE: f64 = 32767.0;
const TAP_SCALE: f64 = 100000.0;

fn bessel_i0(x: f64) -> f64 {
    let base = x * x / 4.0;
    let mut addend = 1.0f64;
    let mut sum = 1.0f64;
    let mut j = 1u32;
    loop {
        addend = addend * base / ((j * j) as f64);
        let old = sum;
        sum += addend;
        if sum == old || !sum.is_finite() {
            break;
        }
        j += 1;
    }
    sum
}

fn sinc(x: f64) -> f64 {
    if x == 0.0 {
        1.0
    } else {
        (x * PI).sin() / (x * PI)
    }
}

/// Kaiser-windowed sinc low-pass, quantized to fixed point.
fn design_lowpass(ntap: usize, fcutoff: f64, beta: f64) -> Vec<i64> {
    let mid = (ntap - 1) as f64 / 2.0;
    let denom = bessel_i0(beta);
    (0..ntap)
        .map(|n| {
            let r = (n as f64 - mid) / ((ntap - 1) as f64 / 2.0);
            let w = bessel_i0(beta * (1.0 - r * r).max(0.0).sqrt()) / denom;
            let h = sinc(2.0 * fcutoff * (n as f64 - mid));
            (w * h * TAP_SCALE).round() as i64
        })
        .collect()
}

fn lo_tables(lo_ch: usize) -> (Vec<i64>, Vec<i64>) {
    let n = N_PT_PER_FRAME as f64;
    let cos_t = (0..N_PT_PER_FRAME)
        .map(|i| (LO_SCALE * (2.0 * PI * lo_ch as f64 * i as f64 / n).cos()).round() as i64)
        .collect();
    let msin_t = (0..N_PT_PER_FRAME)
        .map(|i| (-LO_SCALE * (2.0 * PI * lo_ch as f64 * i as f64 / n).sin()).round() as i64)
        .collect();
    (cos_t, msin_t)
}

#[test]
fn tone_at_the_oscillator_channel_comes_out_flat() {
    // A 4096-sample cosine at channel 512, down-converted with the
    // oscillator on the same channel, a 24-tap Kaiser low-pass and
    // decimation by 8: after a warm-up batch the output is a DC complex
    // stream whose magnitude matches the input amplitude through the
    // known fixed-point gain, and whose phase barely drifts.
    let lo_ch = 512usize;
    let amp = 1000.0f64;
    let taps = design_lowpass(24, 0.01, 5.0);
    let gain: f64 = taps.iter().map(|&t| t as f64).sum();
    let (lo_i, lo_q) = lo_tables(lo_ch);
    let data: Vec<i16> = (0..N_PT_PER_FRAME)
        .map(|i| {
            (amp * (2.0 * PI * lo_ch as f64 * i as f64 / N_PT_PER_FRAME as f64).cos()).round()
                as i16
        })
        .collect();

    let mut d = DownConverter::new(8, 1, taps, lo_i, lo_q);
    let _warmup = d.process(&data).expect("one batch per frame");
    let out = d.process(&data).expect("one batch per frame");
    assert_eq!(out.len(), N_PT_PER_FRAME / 8);

    let expected = 0.5 * amp * LO_SCALE * gain;
    let mut prev_phase: Option<f64> = None;
    for o in &out {
        let re = o.re as f64;
        let im = o.im as f64;
        let mag = (re * re + im * im).sqrt();
        assert!(
            (mag - expected).abs() <= 0.05 * expected,
            "magnitude {} strays from {}",
            mag,
            expected
        );
        let phase = im.atan2(re);
        if let Some(p) = prev_phase {
            let mut dp = (phase - p).abs();
            if dp > PI {
                dp = 2.0 * PI - dp;
            }
            assert!(dp < 0.01, "phase drifts by {} per output sample", dp);
        }
        prev_phase = Some(phase);
    }
}
