use sdaa_data::sdr::{
    awaken_and_locked_reply, exchange_failed, summary_reports_locked, CtrlMsg, ReplySummary,
    SdrSmpRate,
};

fn query_reply(trans_state: u32, locked: u32) -> CtrlMsg {
    CtrlMsg::QueryReply {
        msg_id: 0,
        fm_ver: 1,
        tick_cnt1: 10,
        tick_cnt2: 20,
        trans_state,
        locked,
        health: 0,
    }
}

fn summary_of(normal: Vec<CtrlMsg>) -> ReplySummary {
    ReplySummary { normal_reply: normal, abnormal_reply: Vec::new() }
}

#[test]
fn awake_and_locked_is_judged_from_the_reply() {
    let s = summary_of(vec![query_reply(0b10, 0x3f)]);
    assert_eq!(awaken_and_locked_reply(&s), Some(true));
    let s = summary_of(vec![query_reply(0b11, 0x2f)]);
    assert_eq!(awaken_and_locked_reply(&s), Some(true));
    // Awake bit clear.
    let s = summary_of(vec![query_reply(0b01, 0x3f)]);
    assert_eq!(awaken_and_locked_reply(&s), Some(false));
    // Unlocked lock word.
    let s = summary_of(vec![query_reply(0b10, 0x10)]);
    assert_eq!(awaken_and_locked_reply(&s), Some(false));
}

#[test]
fn abnormal_exchanges_yield_no_judgement() {
    // No reply at all.
    assert_eq!(awaken_and_locked_reply(&summary_of(vec![])), None);
    // More than one reply.
    let s = summary_of(vec![query_reply(2, 0x3f), query_reply(2, 0x3f)]);
    assert_eq!(awaken_and_locked_reply(&s), None);
    // A reply of the wrong shape.
    let s = summary_of(vec![CtrlMsg::Sync { msg_id: 0 }]);
    assert_eq!(awaken_and_locked_reply(&s), None);
}

#[test]
fn locked_wait_stops_only_on_a_locked_reply() {
    assert!(!summary_reports_locked(&summary_of(vec![])));
    assert!(summary_reports_locked(&summary_of(vec![query_reply(0, 0x3f)])));
    assert!(summary_reports_locked(&summary_of(vec![query_reply(0, 0x2f)])));
    assert!(!summary_reports_locked(&summary_of(vec![query_reply(0, 0x1f)])));
    assert!(!summary_reports_locked(&summary_of(vec![CtrlMsg::Query { msg_id: 0 }])));
}

#[test]
fn empty_normal_reply_is_a_hard_failure() {
    assert!(exchange_failed(&summary_of(vec![])));
    assert!(!exchange_failed(&summary_of(vec![query_reply(2, 0x3f)])));
}

#[test]
fn command_builders_match_the_vocabulary() {
    assert_eq!(CtrlMsg::wakeup(), CtrlMsg::PwrCtrl { msg_id: 0, op_code: 1 });
    assert_eq!(CtrlMsg::query(), CtrlMsg::Query { msg_id: 0 });
    assert_eq!(CtrlMsg::sync(), CtrlMsg::Sync { msg_id: 0 });
    assert_eq!(CtrlMsg::init(), CtrlMsg::Init { msg_id: 0, reserved_zeros: 0 });
    assert_eq!(CtrlMsg::stream_start(), CtrlMsg::StreamStart { msg_id: 0 });
    assert_eq!(CtrlMsg::stream_stop(), CtrlMsg::StreamStop { msg_id: 0 });
}

#[test]
fn sample_rates_name_their_decimation() {
    assert_eq!(SdrSmpRate::SmpRate240.to_ndec(), 2);
    assert_eq!(SdrSmpRate::SmpRate120.to_ndec(), 4);
    assert_eq!(SdrSmpRate::from_ndec(2), SdrSmpRate::SmpRate240);
    assert_eq!(SdrSmpRate::from_ndec(4), SdrSmpRate::SmpRate120);
}
