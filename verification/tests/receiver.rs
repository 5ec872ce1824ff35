use sdaa_data::payload::{Payload, N_PT_PER_FRAME};
use sdaa_data::pipeline::RecvState;

fn frame(pkt_cnt: u64) -> Payload {
    let mut p = Payload::default();
    p.pkt_cnt = pkt_cnt;
    p.base_id = 7;
    p.port_id = -3;
    p.version = 2;
    p
}

#[test]
fn contiguous_ten_no_drops() {
    let mut st = RecvState::new();
    let mut emitted: Vec<Payload> = Vec::new();
    for c in 0..10u64 {
        let out = st.ingest(&frame(c));
        assert_eq!(out.len(), 1);
        emitted.extend(out);
    }
    assert_eq!(emitted.len(), 10);
    for (i, p) in emitted.iter().enumerate() {
        assert_eq!(p.pkt_cnt, i as u64);
    }
    assert_eq!(st.ndropped, 0);
    assert_eq!(st.nreceived, 10);
}

#[test]
fn gap_fills_placeholders() {
    let mut st = RecvState::new();
    let mut emitted: Vec<Payload> = Vec::new();
    for c in [0u64, 1, 4, 5] {
        emitted.extend(st.ingest(&frame(c)));
    }
    // Counters 2 and 3 were missing: the stream still carries 0..=5, with
    // zero-filled placeholders standing in at positions 2 and 3.
    assert_eq!(emitted.len(), 6);
    for (i, p) in emitted.iter().enumerate() {
        assert_eq!(p.pkt_cnt, i as u64);
    }
    assert!(emitted[2].data.iter().all(|&s| s == 0));
    assert!(emitted[3].data.iter().all(|&s| s == 0));
    assert_eq!(st.ndropped, 2);
    assert_eq!(st.nreceived, 6);
}

#[test]
fn placeholder_carries_last_seen_header() {
    let mut st = RecvState::new();
    st.ingest(&frame(0));
    let mut f = frame(9);
    f.base_id = 42;
    let out = st.ingest(&f);
    assert_eq!(out.len(), 9);
    for ph in &out[..8] {
        assert_eq!(ph.base_id, 42);
        assert_eq!(ph.version, 2);
        assert_eq!(ph.npt_per_frame, N_PT_PER_FRAME as u64);
        assert!(ph.data.iter().all(|&s| s == 0));
    }
    assert_eq!(out[8].pkt_cnt, 9);
}

#[test]
fn zero_counter_restarts_session() {
    let mut st = RecvState::new();
    st.ingest(&frame(0));
    st.ingest(&frame(1));
    st.ingest(&frame(5));
    assert_eq!(st.ndropped, 3);
    // The digitizer restarted: a zero counter resets the tallies.
    let out = st.ingest(&frame(0));
    assert_eq!(out.len(), 1);
    assert_eq!(out[0].pkt_cnt, 0);
    assert_eq!(st.ndropped, 0);
    assert_eq!(st.nreceived, 1);
    let out = st.ingest(&frame(1));
    assert_eq!(out.len(), 1);
    assert_eq!(st.nreceived, 2);
}

#[test]
fn first_frame_starts_session_anywhere() {
    let mut st = RecvState::new();
    let out = st.ingest(&frame(1000));
    // No placeholders for the counters before the session's first frame.
    assert_eq!(out.len(), 1);
    assert_eq!(out[0].pkt_cnt, 1000);
    assert_eq!(st.ndropped, 0);
}

#[test]
fn backward_counter_is_passed_through() {
    let mut st = RecvState::new();
    st.ingest(&frame(10));
    let out = st.ingest(&frame(3));
    // A nonzero counter below the expected one is emitted as received;
    // the expected counter follows it.
    assert_eq!(out.len(), 1);
    assert_eq!(out[0].pkt_cnt, 3);
    let out = st.ingest(&frame(4));
    assert_eq!(out.len(), 1);
    assert_eq!(out[0].pkt_cnt, 4);
}
