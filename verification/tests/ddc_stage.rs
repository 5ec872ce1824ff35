use sdaa_data::ddc::DownConverter;
use sdaa_data::payload::N_PT_PER_FRAME;

fn ones(n: usize) -> Vec<i64> {
    vec![1i64; n]
}

fn zeros(n: usize) -> Vec<i64> {
    vec![0i64; n]
}

fn ramp() -> Vec<i16> {
    (0..N_PT_PER_FRAME).map(|i| (i % 1000) as i16 - 500).collect()
}

#[test]
fn identity_configuration_passes_input_through() {
    // Unit oscillator, one unit tap, no decimation: the identity.
    let mut d = DownConverter::new(
        1,
        1,
        vec![1i64],
        ones(N_PT_PER_FRAME),
        zeros(N_PT_PER_FRAME),
    );
    let data = ramp();
    let out = d.process(&data).expect("a batch of one frame emits at once");
    assert_eq!(out.len(), N_PT_PER_FRAME);
    for (o, &x) in out.iter().zip(data.iter()) {
        assert_eq!(o.re, x as i64);
        assert_eq!(o.im, 0);
    }
}

#[test]
fn batch_emits_exact_output_length() {
    // Two frames per batch, decimation by 8: one emission of
    // 4096 * 2 / 8 samples after the second frame.
    let ntap = 24;
    let taps: Vec<i64> = (0..ntap).map(|t| (t as i64) - 11).collect();
    let mut d = DownConverter::new(8, 2, taps, ones(N_PT_PER_FRAME), zeros(N_PT_PER_FRAME));
    assert_eq!(d.n_out_data(), N_PT_PER_FRAME * 2 / 8);
    let data = ramp();
    assert!(d.process(&data).is_none());
    let out = d.process(&data).expect("second frame completes the batch");
    assert_eq!(out.len(), N_PT_PER_FRAME * 2 / 8);
}

#[test]
fn overlap_keeps_ntap_minus_one_samples() {
    let ntap = 24;
    let taps: Vec<i64> = vec![3i64; ntap];
    let mut d = DownConverter::new(4, 3, taps, ones(N_PT_PER_FRAME), zeros(N_PT_PER_FRAME));
    let data = ramp();
    for _ in 0..7 {
        d.process(&data);
        assert_eq!(d.hist_i.len(), ntap - 1);
        assert_eq!(d.hist_q.len(), ntap - 1);
    }
}

#[test]
fn convolution_matches_reference() {
    // Two taps, decimation by 2: check every output against a direct
    // computation of the mixed and filtered stream.
    let taps = vec![2i64, 3i64];
    let lo_i: Vec<i64> = (0..N_PT_PER_FRAME).map(|i| if i % 2 == 0 { 5 } else { -5 }).collect();
    let lo_q: Vec<i64> = (0..N_PT_PER_FRAME).map(|i| (i % 3) as i64).collect();
    let mut d = DownConverter::new(2, 1, taps.clone(), lo_i.clone(), lo_q.clone());
    let data = ramp();
    let out = d.process(&data).expect("batch of one");

    // The overlap starts zeroed (one zero sample per leg), then the mixed
    // frame follows.
    let mut ext_i = vec![0i64];
    let mut ext_q = vec![0i64];
    for i in 0..N_PT_PER_FRAME {
        ext_i.push(data[i] as i64 * lo_i[i]);
        ext_q.push(data[i] as i64 * lo_q[i]);
    }
    assert_eq!(out.len(), N_PT_PER_FRAME / 2);
    for (j, o) in out.iter().enumerate() {
        let off = j * 2;
        let re = taps[0] * ext_i[off] + taps[1] * ext_i[off + 1];
        let im = taps[0] * ext_q[off] + taps[1] * ext_q[off + 1];
        assert_eq!(o.re, re);
        assert_eq!(o.im, im);
    }

    // The next frame convolves against the retained overlap, not zeros.
    let out2 = d.process(&data).expect("batch of one");
    let tail_i = *ext_i.last().unwrap();
    let first_re = taps[0] * tail_i + taps[1] * (data[0] as i64 * lo_i[0]);
    assert_eq!(out2[0].re, first_re);
}

#[test]
fn retuned_oscillator_applies_to_next_frame() {
    let mut d = DownConverter::new(
        1,
        1,
        vec![1i64],
        ones(N_PT_PER_FRAME),
        zeros(N_PT_PER_FRAME),
    );
    let data = ramp();
    let out = d.process(&data).unwrap();
    assert!(out.iter().any(|o| o.re != 0));
    d.set_lo(zeros(N_PT_PER_FRAME), zeros(N_PT_PER_FRAME));
    let out = d.process(&data).unwrap();
    assert!(out.iter().all(|o| o.re == 0 && o.im == 0));
}
