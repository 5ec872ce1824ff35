use vstd::prelude::*;

use crate::payload::{all_zero, Payload, N_PT_PER_FRAME};

verus! {

/// Command accepted by the packet receiver.
pub enum RecvCmd {
    Destroy,
}

/// Command accepted by the down-conversion stage: retune the local
/// oscillator, or tear the stage down.
#[derive(Debug, Copy, Clone)]
pub enum DdcCmd {
    LoCh(isize),
    Destroy,
}

/// The packet counters a placeholder run covers: `next`, `next + 1`,
/// ..., `p - 1`; empty when `next >= p`.
pub open spec fn gap_counts(next: u64, p: u64) -> Seq<u64> {
    if next < p {
        Seq::new((p - next) as nat, |i: int| (next + i) as u64)
    } else {
        Seq::empty()
    }
}

/// The packet counters the receiver emits for one accepted frame with
/// counter `p`: the zero-filled placeholders first, then the frame itself.
pub open spec fn emitted_counts(next: Option<u64>, p: u64) -> Seq<u64> {
    match next {
        None => seq![p],
        Some(c) => gap_counts(c, p).push(p),
    }
}

/// Consecutive emissions carry consecutive counters, except where a zero
/// counter marks the start of a new session.
pub open spec fn contiguous_except_restart(s: Seq<u64>) -> bool {
    forall|i: int| 0 < i < s.len() ==> #[trigger] s[i] == s[i - 1] + 1 || s[i] == 0
}

/// The ordering filter of the packet receiver.  It watches the monotonic
/// packet counters of the frames read from the socket, synthesizes a
/// zero-filled placeholder for every missing counter, and keeps the drop
/// and reception tallies.
pub struct RecvState {
    /// Counter the next emission must carry; `None` before the first frame.
    pub next_cnt: Option<u64>,
    /// Placeholders synthesized since the session started.
    pub ndropped: u64,
    /// Frames emitted since the session started.
    pub nreceived: u64,
    /// Every packet counter ever emitted, in emission order.
    pub history: Ghost<Seq<u64>>,
}

/// `x` clamped to the largest value a 64-bit tally can hold.
pub open spec fn sat64(x: int) -> int {
    if x > u64::MAX {
        u64::MAX as int
    } else {
        x
    }
}

impl RecvState {
    /// The next expected counter is one past the last emission, and is
    /// unset exactly while nothing has been emitted.
    pub open spec fn wf(self) -> bool {
        match self.next_cnt {
            None => self.history@.len() == 0,
            Some(c) => self.history@.len() > 0 && self.history@.last() + 1 == c,
        }
    }

    pub fn new() -> (s: Self)
        ensures
            s.wf(),
            s.next_cnt is None,
            s.history@ == Seq::<u64>::empty(),
    {
        RecvState {
            next_cnt: None,
            ndropped: 0,
            nreceived: 0,
            history: Ghost(Seq::empty()),
        }
    }

    /// Accept one frame read from the socket and return everything the
    /// receiver must emit for it: one placeholder per missing counter,
    /// each carrying the accepted frame's header and all-zero samples,
    /// followed by the frame itself.  A zero counter resets the session
    /// tallies; the session's first frame initializes them.
    pub fn ingest(&mut self, p: &Payload) -> (out: Vec<Payload>)
        requires
            old(self).wf(),
            p.wf(),
            p.pkt_cnt < u64::MAX,
        ensures
            final(self).wf(),
            final(self).next_cnt == Some((p.pkt_cnt + 1) as u64),
            final(self).history@ == old(self).history@ + emitted_counts(
                old(self).next_cnt,
                p.pkt_cnt,
            ),
            out@.len() == emitted_counts(old(self).next_cnt, p.pkt_cnt).len(),
            forall|i: int|
                0 <= i < out@.len() ==> out@[i].pkt_cnt == emitted_counts(
                    old(self).next_cnt,
                    p.pkt_cnt,
                )[i],
            forall|i: int|
                0 <= i < out@.len() - 1 ==> {
                    &&& out@[i].header_eq_except_cnt(*p)
                    &&& all_zero(out@[i].data@)
                    &&& out@[i].reserved == 0
                    &&& out@[i].wf()
                },
            out@.last().header_eq(*p),
            out@.last().data@ == p.data@,
            out@.last().reserved == p.reserved,
            final(self).ndropped == sat64(
                (if p.pkt_cnt == 0 || old(self).next_cnt is None {
                    0int
                } else {
                    old(self).ndropped as int
                }) + gap_counts(start_count(old(self).next_cnt, p.pkt_cnt), p.pkt_cnt).len(),
            ),
            final(self).nreceived == sat64(
                (if p.pkt_cnt == 0 {
                    0int
                } else {
                    old(self).nreceived as int
                }) + gap_counts(start_count(old(self).next_cnt, p.pkt_cnt), p.pkt_cnt).len() + 1,
            ),
    {
        let pcnt = p.pkt_cnt;
        if self.next_cnt.is_none() {
            self.next_cnt = Some(pcnt);
            self.ndropped = 0;
        }
        if pcnt == 0 {
            self.ndropped = 0;
            self.nreceived = 0;
        }
        let start: u64 = self.next_cnt.unwrap();
        let ghost start_spec: u64 = start;

        let mut out: Vec<Payload> = Vec::new();
        let mut c: u64 = start;
        if c > pcnt {
            c = pcnt;
        }
        // Synthesize one placeholder per missing counter.
        while c < pcnt
            invariant
                start_spec <= u64::MAX,
                (start_spec < pcnt && start_spec <= c <= pcnt) || (start_spec >= pcnt && c
                    == pcnt),
                p.wf(),
                out@.len() == c - (if start_spec < pcnt {
                    start_spec as int
                } else {
                    pcnt as int
                }),
                forall|i: int|
                    0 <= i < out@.len() ==> out@[i].pkt_cnt == start_spec + i,
                forall|i: int|
                    0 <= i < out@.len() ==> {
                        &&& out@[i].header_eq_except_cnt(*p)
                        &&& all_zero(out@[i].data@)
                        &&& out@[i].reserved == 0
                        &&& out@[i].wf()
                    },
            decreases pcnt - c,
        {
            let mut ph = Payload::default();
            ph.copy_header(p);
            ph.pkt_cnt = c;
            out.push(ph);
            c += 1;
        }
        let ngap = out.len();
        out.push(clone_frame(p));

        proof {
            assert(out@.len() == gap_counts(start_spec, pcnt).len() + 1);
        }

        self.ndropped = match self.ndropped.checked_add(ngap as u64) {
            Some(v) => v,
            None => u64::MAX,
        };
        self.nreceived = match self.nreceived.checked_add(ngap as u64) {
            Some(v) => v,
            None => u64::MAX,
        };
        self.nreceived = match self.nreceived.checked_add(1) {
            Some(v) => v,
            None => u64::MAX,
        };
        self.next_cnt = Some(pcnt + 1);
        proof {
            self.history@ = self.history@ + emitted_counts(old(self).next_cnt, pcnt);
            assert forall|i: int| 0 <= i < out@.len() implies out@[i].pkt_cnt == emitted_counts(
                old(self).next_cnt,
                pcnt,
            )[i] by {
                if i < out@.len() - 1 {
                    assert(out@[i].pkt_cnt == start_spec + i);
                }
            }
        }
        out
    }
}

/// Law: as long as every accepted frame either continues the session (its
/// counter is at least the expected one) or restarts it (its counter is
/// zero), the emissions for one more frame keep the whole emission history
/// contiguous: each emitted counter is one past its predecessor, except
/// that a zero counter may start a new session.
pub proof fn lemma_emissions_stay_contiguous(history: Seq<u64>, next: Option<u64>, p: u64)
    requires
        contiguous_except_restart(history),
        match next {
            None => history.len() == 0,
            Some(c) => history.len() > 0 && history.last() + 1 == c,
        },
        match next {
            None => true,
            Some(c) => p >= c || p == 0,
        },
    ensures
        contiguous_except_restart(history + emitted_counts(next, p)),
{
    let s = history + emitted_counts(next, p);
    assert forall|i: int| 0 < i < s.len() implies #[trigger] s[i] == s[i - 1] + 1 || s[i] == 0 by {
        let n = history.len() as int;
        if i < n {
            assert(s[i] == history[i] && s[i - 1] == history[i - 1]);
        } else {
            let c = next.unwrap();
            let counts = emitted_counts(next, p);
            assert(s[i] == counts[i - n]);
            if i == n {
                // The first new emission either continues the old run or is
                // a session restart.
                if c < p {
                    assert(counts[0] == c);
                } else {
                    assert(counts[0] == p);
                }
            } else {
                assert(s[i - 1] == counts[i - n - 1]);
                if i - n < counts.len() - 1 {
                    assert(counts[i - n] == c + (i - n));
                    assert(counts[i - n - 1] == c + (i - n - 1));
                } else {
                    // The accepted frame itself follows the last placeholder.
                    assert(counts[i - n] == p);
                    assert(counts[i - n - 1] == c + (i - n - 1));
                }
            }
        }
    }
}

/// The same law, phrased over one `ingest` step of the receiver: the
/// history after the step is still contiguous except at restarts.
pub proof fn lemma_ingest_keeps_contiguity(pre: RecvState, post: RecvState, p: u64)
    requires
        pre.wf(),
        contiguous_except_restart(pre.history@),
        post.history@ == pre.history@ + emitted_counts(pre.next_cnt, p),
        match pre.next_cnt {
            None => true,
            Some(c) => p >= c || p == 0,
        },
    ensures
        contiguous_except_restart(post.history@),
{
    lemma_emissions_stay_contiguous(pre.history@, pre.next_cnt, p);
}

/// The counter the placeholder run starts from: the expected counter once
/// the session is initialized, else the frame's own counter.
pub open spec fn start_count(next: Option<u64>, p: u64) -> u64 {
    match next {
        None => p,
        Some(c) => c,
    }
}

/// The copying core of the stream-draining boundary: fill `buf` from
/// `written` onward out of `src[cursor ..]`, copying as many samples as
/// both sides allow.  Returns how many were copied; the caller refills
/// `src` and calls again until `buf` is full.
pub fn fill_from(buf: &mut Vec<i16>, written: usize, src: &Vec<i16>, cursor: usize) -> (n: usize)
    requires
        written <= old(buf)@.len(),
        cursor <= src@.len(),
    ensures
        n == if old(buf)@.len() - written <= src@.len() - cursor {
            old(buf)@.len() - written
        } else {
            src@.len() - cursor
        },
        final(buf)@.len() == old(buf)@.len(),
        forall|k: int| 0 <= k < written ==> #[trigger] final(buf)@[k] == old(buf)@[k],
        forall|k: int|
            written + n <= k < old(buf)@.len() ==> #[trigger] final(buf)@[k] == old(buf)@[k],
        forall|k: int|
            0 <= k < n ==> #[trigger] final(buf)@[written + k] == src@[cursor + k],
{
    let want = buf.len() - written;
    let avail = src.len() - cursor;
    let n = if want <= avail {
        want
    } else {
        avail
    };
    let bl = buf.len();
    let sl = src.len();
    let mut k: usize = 0;
    while k < n
        invariant
            k <= n,
            bl == buf@.len(),
            sl == src@.len(),
            written + n <= bl,
            cursor + n <= sl,
            buf@.len() == old(buf)@.len(),
            forall|j: int| 0 <= j < written ==> #[trigger] buf@[j] == old(buf)@[j],
            forall|j: int|
                written + k <= j < buf@.len() ==> #[trigger] buf@[j] == old(buf)@[j],
            forall|j: int| 0 <= j < k ==> #[trigger] buf@[written + j] == src@[cursor + j],
        decreases n - k,
    {
        let v = src[cursor + k];
        buf.set(written + k, v);
        k += 1;
    }
    n
}

/// An exact copy of a frame, header and samples alike.
fn clone_frame(p: &Payload) -> (r: Payload)
    ensures
        r.header_eq(*p),
        r.reserved == p.reserved,
        r.data@ == p.data@,
{
    let mut data: Vec<i16> = Vec::new();
    let n = p.data.len();
    let mut i: usize = 0;
    while i < n
        invariant
            i <= n,
            n == p.data@.len(),
            data@ == p.data@.subrange(0, i as int),
        decreases n - i,
    {
        let v = p.data[i];
        data.push(v);
        proof {
            assert(data@ =~= p.data@.subrange(0, i + 1));
        }
        i += 1;
    }
    proof {
        assert(data@ =~= p.data@);
    }
    Payload {
        header: p.header,
        version: p.version,
        pkt_cnt: p.pkt_cnt,
        base_id: p.base_id,
        port_id: p.port_id,
        npt_per_frame: p.npt_per_frame,
        reserved: p.reserved,
        data,
    }
}

} // verus!
