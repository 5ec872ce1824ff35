use sdaa_data::payload::N_PT_PER_FRAME;
use sdaa_data::pipeline::fill_from;
use sdaa_data::waterfall::{FftFramer, Integrator};

#[test]
fn short_transform_fills_every_frame() {
    // 2 * nch = 2048 tiles the 4096-sample frame: each frame completes a
    // buffer.
    let mut f = FftFramer::new(1024);
    for _ in 0..5 {
        assert!(f.push_frame());
    }
}

#[test]
fn long_transform_fills_every_other_frame() {
    // 2 * nch = 8192 is two frames long.
    let mut f = FftFramer::new(4096);
    for _ in 0..4 {
        assert!(!f.push_frame());
        assert!(f.push_frame());
    }
}

#[test]
fn integrator_emits_every_nint_blocks() {
    let mut g = Integrator::new(512, 3);
    let mut emissions = 0;
    for k in 1..=12 {
        let emit = g.push_block();
        assert_eq!(emit, k % 3 == 0);
        if emit {
            emissions += 1;
        }
    }
    assert_eq!(emissions, 4);
}

#[test]
fn drain_copies_across_buffer_boundaries() {
    // A consumer asks for 10 samples; the source hands them over in two
    // pieces, as the stream-draining boundary does between refills.
    let mut buf = vec![0i16; 10];
    let src1: Vec<i16> = (1..=6).collect();
    let n = fill_from(&mut buf, 0, &src1, 2);
    assert_eq!(n, 4);
    assert_eq!(&buf[..4], &[3, 4, 5, 6]);
    let src2: Vec<i16> = (10..=30).collect();
    let n = fill_from(&mut buf, 4, &src2, 0);
    assert_eq!(n, 6);
    assert_eq!(buf, vec![3, 4, 5, 6, 10, 11, 12, 13, 14, 15]);
}

#[test]
fn drain_stops_at_the_buffer_end() {
    let mut buf = vec![9i16; 4];
    let src: Vec<i16> = (0..100).collect();
    let n = fill_from(&mut buf, 3, &src, 50);
    assert_eq!(n, 1);
    assert_eq!(buf, vec![9, 9, 9, 50]);
}

#[test]
fn frame_length_is_the_wire_constant() {
    assert_eq!(N_PT_PER_FRAME, 4096);
}
