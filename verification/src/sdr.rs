use vstd::prelude::*;

verus! {

/// The control vocabulary spoken to the digitizer: requests on the left
/// of the request/reply exchange, and the query's reply.
#[derive(Clone, Copy, Debug, PartialEq, Eq, Structural)]
pub enum CtrlMsg {
    Query { msg_id: u32 },
    PwrCtrl { msg_id: u32, op_code: u32 },
    Init { msg_id: u32, reserved_zeros: u64 },
    Sync { msg_id: u32 },
    StreamStart { msg_id: u32 },
    StreamStop { msg_id: u32 },
    QueryReply {
        msg_id: u32,
        fm_ver: u32,
        tick_cnt1: u64,
        tick_cnt2: u64,
        trans_state: u32,
        locked: u32,
        health: u32,
    },
}

impl CtrlMsg {
    /// The power-up request.
    pub fn wakeup() -> (m: Self)
        ensures
            m == (CtrlMsg::PwrCtrl { msg_id: 0, op_code: 1 }),
    {
        CtrlMsg::PwrCtrl { msg_id: 0, op_code: 1 }
    }

    pub fn query() -> (m: Self)
        ensures
            m == (CtrlMsg::Query { msg_id: 0 }),
    {
        CtrlMsg::Query { msg_id: 0 }
    }

    pub fn sync() -> (m: Self)
        ensures
            m == (CtrlMsg::Sync { msg_id: 0 }),
    {
        CtrlMsg::Sync { msg_id: 0 }
    }

    pub fn init() -> (m: Self)
        ensures
            m == (CtrlMsg::Init { msg_id: 0, reserved_zeros: 0 }),
    {
        CtrlMsg::Init { msg_id: 0, reserved_zeros: 0 }
    }

    pub fn stream_start() -> (m: Self)
        ensures
            m == (CtrlMsg::StreamStart { msg_id: 0 }),
    {
        CtrlMsg::StreamStart { msg_id: 0 }
    }

    pub fn stream_stop() -> (m: Self)
        ensures
            m == (CtrlMsg::StreamStop { msg_id: 0 }),
    {
        CtrlMsg::StreamStop { msg_id: 0 }
    }
}

/// What one request/reply exchange gathered: the replies of the expected
/// shape, and the taxonomically abnormal ones.
pub struct ReplySummary {
    pub normal_reply: Vec<CtrlMsg>,
    pub abnormal_reply: Vec<CtrlMsg>,
}

/// The lock word reported by a healthy, locked digitizer.
pub open spec fn locked_value(locked: u32) -> bool {
    locked == 0x3f || locked == 0x2f
}

/// The transfer-state bit that reports the digitizer awake.
pub open spec fn awake_value(trans_state: u32) -> bool {
    trans_state & 0x2 != 0
}

/// What a query exchange decides about the digitizer: `None` when the
/// exchange did not yield exactly one well-shaped reply, otherwise
/// whether the digitizer is both awake and locked.
pub open spec fn awaken_and_locked_spec(s: ReplySummary) -> Option<bool> {
    if s.normal_reply@.len() != 1 {
        None
    } else {
        match s.normal_reply@[0] {
            CtrlMsg::QueryReply { trans_state, locked, .. } => Some(
                awake_value(trans_state) && locked_value(locked),
            ),
            _ => None,
        }
    }
}

/// Judge a query's reply summary: awake and locked, or `None` when the
/// exchange was abnormal.
pub fn awaken_and_locked_reply(s: &ReplySummary) -> (r: Option<bool>)
    ensures
        r == awaken_and_locked_spec(*s),
{
    if s.normal_reply.len() != 1 {
        None
    } else {
        match s.normal_reply[0] {
            CtrlMsg::QueryReply { msg_id: _, fm_ver: _, tick_cnt1: _, tick_cnt2: _, trans_state, locked, health: _ } => {
                Some(trans_state & 0x2 != 0 && (locked == 0x3f || locked == 0x2f))
            },
            _ => None,
        }
    }
}

/// Whether one polling round of the locked-wait loop may stop: the
/// exchange yielded at least one reply, and the first one is a query
/// reply whose lock word reads locked.
pub open spec fn reports_locked_spec(s: ReplySummary) -> bool {
    s.normal_reply@.len() > 0 && match s.normal_reply@[0] {
        CtrlMsg::QueryReply { locked, .. } => locked_value(locked),
        _ => false,
    }
}

/// Decide one polling round of the locked-wait loop.
pub fn summary_reports_locked(s: &ReplySummary) -> (r: bool)
    ensures
        r == reports_locked_spec(*s),
{
    if s.normal_reply.len() == 0 {
        return false;
    }
    match s.normal_reply[0] {
        CtrlMsg::QueryReply { msg_id: _, fm_ver: _, tick_cnt1: _, tick_cnt2: _, trans_state: _, locked, health: _ } => {
            locked == 0x3f || locked == 0x2f
        },
        _ => false,
    }
}

/// The supervisor treats an exchange that gathered no well-shaped reply
/// as a hard failure of the operation.
pub fn exchange_failed(s: &ReplySummary) -> (r: bool)
    ensures
        r <==> s.normal_reply@.len() == 0,
{
    s.normal_reply.len() == 0
}

/// The two sample-rate configurations of the digitizer, named by the
/// megasamples per second they deliver after decimation.
#[derive(Debug, Clone, Copy, PartialEq, Eq, Structural)]
pub enum SdrSmpRate {
    SmpRate240,
    SmpRate120,
}

impl SdrSmpRate {
    /// The decimation factor this rate asks of the down converter.
    pub open spec fn spec_ndec(self) -> usize {
        match self {
            SdrSmpRate::SmpRate240 => 2,
            SdrSmpRate::SmpRate120 => 4,
        }
    }

    pub fn to_ndec(&self) -> (r: usize)
        ensures
            r == self.spec_ndec(),
    {
        match self {
            SdrSmpRate::SmpRate240 => 2,
            SdrSmpRate::SmpRate120 => 4,
        }
    }

    /// Only the two supported decimation factors name a rate.
    pub fn from_ndec(ndec: usize) -> (r: SdrSmpRate)
        requires
            ndec == 2 || ndec == 4,
        ensures
            r.spec_ndec() == ndec,
            ndec == 2 ==> r is SmpRate240,
            ndec == 4 ==> r is SmpRate120,
    {
        if ndec == 2 {
            SdrSmpRate::SmpRate240
        } else {
            SdrSmpRate::SmpRate120
        }
    }
}

} // verus!
