use vstd::prelude::*;

use vstd::arithmetic::div_mod::lemma_fundamental_div_mod;
use vstd::arithmetic::mul::lemma_mul_inequality;

use crate::payload::N_PT_PER_FRAME;

verus! {

/// One complex output sample of the down converter, in the fixed-point
/// scale set by the oscillator table and the filter taps.
#[derive(Clone, Copy, Debug, PartialEq, Eq, Structural)]
pub struct IqSample {
    pub re: i64,
    pub im: i64,
}

/// Largest magnitude allowed of one oscillator table entry.
pub const LO_SCALE_MAX: i64 = 32768;

/// Largest magnitude of one mixed sample: a 16-bit sample times an
/// oscillator entry.
pub const MIX_MAX: i64 = 1073741824;

/// Largest magnitude allowed of one filter tap.
pub const TAP_MAX: i64 = 1048576;

/// Largest magnitude of one tap times one mixed sample.
pub const TERM_MAX: i64 = 1125899906842624;

/// Largest tap count of a filter.
pub const NTAP_MAX: usize = 4096;

/// Largest number of frames a batch may gather.
pub const NBATCH_MAX: usize = 4096;

/// Every entry of `s` has magnitude at most `b`.
pub open spec fn bounded(s: Seq<i64>, b: i64) -> bool {
    forall|i: int| 0 <= i < s.len() ==> -b <= #[trigger] s[i] <= b
}

/// The mixed stream: each raw sample multiplied by the matching
/// oscillator table entry.
pub open spec fn mixed(data: Seq<i16>, lo: Seq<i64>) -> Seq<i64> {
    Seq::new(data.len(), |i: int| (data[i] * lo[i]) as i64)
}

/// Dot product of the first `k` taps against `h` starting at `off`.
pub open spec fn dot_prefix(h: Seq<i64>, taps: Seq<i64>, off: int, k: int) -> int
    decreases k,
{
    if k <= 0 {
        0
    } else {
        dot_prefix(h, taps, off, k - 1) + taps[k - 1] * h[off + k - 1]
    }
}

/// The filter slid over `h` at offset `off`: the full dot product of the
/// taps against `h[off ..]`.
pub open spec fn dot(h: Seq<i64>, taps: Seq<i64>, off: int) -> int {
    dot_prefix(h, taps, off, taps.len() as int)
}

/// Compute `dot(h, taps, off)` exactly, without overflow.
fn dot_exec(h: &Vec<i64>, taps: &Vec<i64>, off: usize) -> (r: i64)
    requires
        0 < taps@.len() <= NTAP_MAX,
        off + taps@.len() <= h@.len(),
        bounded(h@, MIX_MAX),
        bounded(taps@, TAP_MAX),
    ensures
        r == dot(h@, taps@, off as int),
{
    let n = taps.len();
    let hl = h.len();
    let mut acc: i64 = 0;
    let mut k: usize = 0;
    while k < n
        invariant
            k <= n,
            n == taps@.len(),
            hl == h@.len(),
            0 < n <= NTAP_MAX,
            off + n <= hl,
            bounded(h@, MIX_MAX),
            bounded(taps@, TAP_MAX),
            acc == dot_prefix(h@, taps@, off as int, k as int),
            -(k as int) * TERM_MAX <= acc <= (k as int) * TERM_MAX,
        decreases n - k,
    {
        let t = taps[k];
        let hv = h[off + k];
        proof {
            assert(-TERM_MAX <= t * hv <= TERM_MAX) by (nonlinear_arith)
                requires
                    -TAP_MAX <= t <= TAP_MAX,
                    -MIX_MAX <= hv <= MIX_MAX,
            ;
            lemma_mul_inequality(k as int + 1, NTAP_MAX as int, TERM_MAX as int);
        }
        acc = acc + t * hv;
        k += 1;
        proof {
            lemma_mul_inequality(k as int, NTAP_MAX as int, TERM_MAX as int);
        }
    }
    acc
}

/// Append the mixed stream `data[i] * lo[i]` to `ext`.
fn extend_mixed(ext: &mut Vec<i64>, data: &Vec<i16>, lo: &Vec<i64>)
    requires
        data@.len() == lo@.len(),
        bounded(lo@, LO_SCALE_MAX),
        bounded(old(ext)@, MIX_MAX),
    ensures
        final(ext)@ == old(ext)@ + mixed(data@, lo@),
        bounded(final(ext)@, MIX_MAX),
{
    let n = data.len();
    let mut i: usize = 0;
    while i < n
        invariant
            i <= n,
            n == data@.len(),
            n == lo@.len(),
            bounded(lo@, LO_SCALE_MAX),
            bounded(ext@, MIX_MAX),
            ext@ == old(ext)@ + mixed(data@, lo@).subrange(0, i as int),
        decreases n - i,
    {
        let d = data[i];
        let l = lo[i];
        proof {
            assert(-MIX_MAX <= (d as i64) * l <= MIX_MAX) by (nonlinear_arith)
                requires
                    -32768 <= d as i64 <= 32767,
                    -LO_SCALE_MAX <= l <= LO_SCALE_MAX,
            ;
        }
        ext.push((d as i64) * l);
        i += 1;
        proof {
            assert(ext@ =~= old(ext)@ + mixed(data@, lo@).subrange(0, i as int));
        }
    }
    proof {
        assert(mixed(data@, lo@).subrange(0, n as int) =~= mixed(data@, lo@));
    }
}

/// Copy an i64 vector.
fn copy_i64(src: &Vec<i64>) -> (r: Vec<i64>)
    ensures
        r@ == src@,
{
    let mut r: Vec<i64> = Vec::new();
    let n = src.len();
    let mut i: usize = 0;
    while i < n
        invariant
            i <= n,
            n == src@.len(),
            r@ == src@.subrange(0, i as int),
        decreases n - i,
    {
        let v = src[i];
        r.push(v);
        i += 1;
        proof {
            assert(r@ =~= src@.subrange(0, i as int));
        }
    }
    proof {
        assert(r@ =~= src@);
    }
    r
}

/// The streaming down converter: it mixes each incoming frame against a
/// two-leg oscillator table, slides a low-pass filter over the mixed
/// stream with an integer decimation stride, keeps the trailing overlap
/// between frames, and gathers the decimated outputs of `nbatch` frames
/// into one emission.
pub struct DownConverter {
    /// Decimation factor; it divides the frame length.
    pub ndec: usize,
    /// Frames gathered per emission.
    pub nbatch: usize,
    /// Low-pass filter taps, in fixed point.
    pub taps: Vec<i64>,
    /// Oscillator table of the in-phase leg (a scaled cosine).
    pub lo_i: Vec<i64>,
    /// Oscillator table of the quadrature leg (a scaled negated sine).
    pub lo_q: Vec<i64>,
    /// Overlap kept between frames on the in-phase leg.
    pub hist_i: Vec<i64>,
    /// Overlap kept between frames on the quadrature leg.
    pub hist_q: Vec<i64>,
    /// Frames gathered into the current batch so far.
    pub nframes: usize,
    /// Outputs gathered for the current batch.
    pub acc: Vec<IqSample>,
}

impl DownConverter {
    /// Decimated outputs each frame contributes.
    pub open spec fn frame_len(self) -> int {
        N_PT_PER_FRAME as int / self.ndec as int
    }

    /// Length of one emission.
    pub open spec fn out_len(self) -> int {
        self.nbatch * self.frame_len()
    }

    pub open spec fn wf(self) -> bool {
        &&& 0 < self.ndec <= N_PT_PER_FRAME
        &&& N_PT_PER_FRAME as int % self.ndec as int == 0
        &&& 0 < self.nbatch <= NBATCH_MAX
        &&& 0 < self.taps@.len() <= NTAP_MAX
        &&& bounded(self.taps@, TAP_MAX)
        &&& self.lo_i@.len() == N_PT_PER_FRAME
        &&& self.lo_q@.len() == N_PT_PER_FRAME
        &&& bounded(self.lo_i@, LO_SCALE_MAX)
        &&& bounded(self.lo_q@, LO_SCALE_MAX)
        &&& self.hist_i@.len() == self.taps@.len() - 1
        &&& self.hist_q@.len() == self.taps@.len() - 1
        &&& bounded(self.hist_i@, MIX_MAX)
        &&& bounded(self.hist_q@, MIX_MAX)
        &&& self.nframes < self.nbatch
        &&& self.acc@.len() == self.nframes * self.frame_len()
    }

    /// The fixed configuration (everything but the overlap and the batch
    /// in progress) of the two states agrees.
    pub open spec fn same_config(self, other: Self) -> bool {
        &&& self.ndec == other.ndec
        &&& self.nbatch == other.nbatch
        &&& self.taps@ == other.taps@
        &&& self.lo_i@ == other.lo_i@
        &&& self.lo_q@ == other.lo_q@
    }

    /// The in-phase mixed stream a frame extends the overlap with.
    pub open spec fn ext_i(self, data: Seq<i16>) -> Seq<i64> {
        self.hist_i@ + mixed(data, self.lo_i@)
    }

    /// The quadrature mixed stream a frame extends the overlap with.
    pub open spec fn ext_q(self, data: Seq<i16>) -> Seq<i64> {
        self.hist_q@ + mixed(data, self.lo_q@)
    }

    /// The complex outputs one frame contributes: output `j` is the
    /// filter dotted against each mixed leg at offset `j * ndec`.
    pub open spec fn frame_iq(self, data: Seq<i16>) -> Seq<IqSample> {
        Seq::new(
            self.frame_len() as nat,
            |j: int|
                IqSample {
                    re: dot(self.ext_i(data), self.taps@, j * self.ndec) as i64,
                    im: dot(self.ext_q(data), self.taps@, j * self.ndec) as i64,
                },
        )
    }

    /// Build a converter with zeroed overlap and an empty batch.
    pub fn new(ndec: usize, nbatch: usize, taps: Vec<i64>, lo_i: Vec<i64>, lo_q: Vec<i64>) -> (d:
        Self)
        requires
            0 < ndec <= N_PT_PER_FRAME,
            N_PT_PER_FRAME as int % ndec as int == 0,
            0 < nbatch <= NBATCH_MAX,
            0 < taps@.len() <= NTAP_MAX,
            bounded(taps@, TAP_MAX),
            lo_i@.len() == N_PT_PER_FRAME,
            lo_q@.len() == N_PT_PER_FRAME,
            bounded(lo_i@, LO_SCALE_MAX),
            bounded(lo_q@, LO_SCALE_MAX),
        ensures
            d.wf(),
            d.ndec == ndec,
            d.nbatch == nbatch,
            d.taps@ == taps@,
            d.lo_i@ == lo_i@,
            d.lo_q@ == lo_q@,
            d.nframes == 0,
            d.acc@.len() == 0,
            bounded(d.hist_i@, 0),
            bounded(d.hist_q@, 0),
    {
        let nstat = taps.len() - 1;
        let mut hist_i: Vec<i64> = Vec::new();
        while hist_i.len() < nstat
            invariant
                hist_i@.len() <= nstat,
                bounded(hist_i@, 0),
            decreases nstat - hist_i@.len(),
        {
            hist_i.push(0i64);
        }
        let hist_q = copy_i64(&hist_i);
        DownConverter { ndec, nbatch, taps, lo_i, lo_q, hist_i, hist_q, nframes: 0, acc: Vec::new() }
    }

    /// Length of one emission, as the C boundary reports it.
    pub fn n_out_data(&self) -> (r: usize)
        requires
            self.wf(),
        ensures
            r == self.out_len(),
    {
        proof {
            lemma_mul_inequality(self.nbatch as int, NBATCH_MAX as int, self.frame_len());
            assert(self.frame_len() <= N_PT_PER_FRAME as int) by (nonlinear_arith)
                requires
                    0 < self.ndec,
                    self.frame_len() == N_PT_PER_FRAME as int / self.ndec as int,
            ;
            assert(self.nbatch * self.frame_len() <= NBATCH_MAX as int * N_PT_PER_FRAME as int)
                by (nonlinear_arith)
                requires
                    0 < self.nbatch <= NBATCH_MAX,
                    0 <= self.frame_len() <= N_PT_PER_FRAME,
            ;
        }
        self.nbatch * (N_PT_PER_FRAME / self.ndec)
    }

    /// Retune the oscillator atomically: the next frame is mixed with the
    /// new table, while overlap already gathered keeps its old mix.
    pub fn set_lo(&mut self, lo_i: Vec<i64>, lo_q: Vec<i64>)
        requires
            old(self).wf(),
            lo_i@.len() == N_PT_PER_FRAME,
            lo_q@.len() == N_PT_PER_FRAME,
            bounded(lo_i@, LO_SCALE_MAX),
            bounded(lo_q@, LO_SCALE_MAX),
        ensures
            final(self).wf(),
            final(self).lo_i@ == lo_i@,
            final(self).lo_q@ == lo_q@,
            final(self).ndec == old(self).ndec,
            final(self).nbatch == old(self).nbatch,
            final(self).taps@ == old(self).taps@,
            final(self).hist_i@ == old(self).hist_i@,
            final(self).hist_q@ == old(self).hist_q@,
            final(self).nframes == old(self).nframes,
            final(self).acc@ == old(self).acc@,
    {
        self.lo_i = lo_i;
        self.lo_q = lo_q;
    }

    /// Feed one frame of raw samples.  The frame is mixed onto both legs,
    /// filtered and decimated against the retained overlap, and the
    /// trailing `ntap - 1` mixed samples are kept for the next frame.
    /// Once `nbatch` frames have been gathered their outputs are emitted
    /// as one buffer.
    pub fn process(&mut self, data: &Vec<i16>) -> (r: Option<Vec<IqSample>>)
        requires
            old(self).wf(),
            data@.len() == N_PT_PER_FRAME,
        ensures
            final(self).wf(),
            final(self).same_config(*old(self)),
            final(self).hist_i@ == old(self).ext_i(data@).subrange(
                N_PT_PER_FRAME as int,
                old(self).ext_i(data@).len() as int,
            ),
            final(self).hist_q@ == old(self).ext_q(data@).subrange(
                N_PT_PER_FRAME as int,
                old(self).ext_q(data@).len() as int,
            ),
            final(self).hist_i@.len() == old(self).taps@.len() - 1,
            final(self).hist_q@.len() == old(self).taps@.len() - 1,
            old(self).nframes + 1 == old(self).nbatch ==> {
                &&& r matches Some(v) && v@ == old(self).acc@ + old(self).frame_iq(data@)
                &&& r matches Some(v) && v@.len() == old(self).out_len()
                &&& final(self).nframes == 0
                &&& final(self).acc@.len() == 0
            },
            old(self).nframes + 1 != old(self).nbatch ==> {
                &&& r is None
                &&& final(self).acc@ == old(self).acc@ + old(self).frame_iq(data@)
                &&& final(self).nframes == old(self).nframes + 1
            },
    {
        let ghost pre = *self;

        // Mix the frame onto each leg, after the retained overlap.
        let mut ext_i = copy_i64(&self.hist_i);
        extend_mixed(&mut ext_i, data, &self.lo_i);
        let mut ext_q = copy_i64(&self.hist_q);
        extend_mixed(&mut ext_q, data, &self.lo_q);
        proof {
            assert(ext_i@ == pre.ext_i(data@));
            assert(ext_q@ == pre.ext_q(data@));
        }

        // Slide the filter with stride `ndec`.
        let nout = N_PT_PER_FRAME / self.ndec;
        let ntap = self.taps.len();
        proof {
            lemma_fundamental_div_mod(N_PT_PER_FRAME as int, self.ndec as int);
            assert(nout * self.ndec == N_PT_PER_FRAME) by (nonlinear_arith)
                requires
                    0 < self.ndec,
                    N_PT_PER_FRAME as int == self.ndec as int * (N_PT_PER_FRAME as int
                        / self.ndec as int) + N_PT_PER_FRAME as int % self.ndec as int,
                    N_PT_PER_FRAME as int % self.ndec as int == 0,
                    nout == N_PT_PER_FRAME as int / self.ndec as int,
            ;
        }
        let mut fr: Vec<IqSample> = Vec::new();
        let mut j: usize = 0;
        while j < nout
            invariant
                j <= nout,
                pre.wf(),
                *self == pre,
                data@.len() == N_PT_PER_FRAME,
                nout == pre.frame_len(),
                nout * pre.ndec == N_PT_PER_FRAME,
                ntap == pre.taps@.len(),
                ext_i@ == pre.ext_i(data@),
                ext_q@ == pre.ext_q(data@),
                ext_i@.len() == ntap - 1 + N_PT_PER_FRAME,
                ext_q@.len() == ntap - 1 + N_PT_PER_FRAME,
                bounded(ext_i@, MIX_MAX),
                bounded(ext_q@, MIX_MAX),
                fr@ == pre.frame_iq(data@).subrange(0, j as int),
            decreases nout - j,
        {
            proof {
                lemma_mul_inequality(j as int, nout as int - 1, pre.ndec as int);
                assert((nout as int - 1) * pre.ndec as int == nout * pre.ndec - pre.ndec)
                    by (nonlinear_arith);
            }
            let off = j * self.ndec;
            let re = dot_exec(&ext_i, &self.taps, off);
            let im = dot_exec(&ext_q, &self.taps, off);
            fr.push(IqSample { re, im });
            j += 1;
            proof {
                assert(fr@ =~= pre.frame_iq(data@).subrange(0, j as int));
            }
        }
        proof {
            assert(fr@ =~= pre.frame_iq(data@));
        }

        // Keep the trailing overlap for the next frame.
        let hist_i = ext_i.split_off(N_PT_PER_FRAME);
        let hist_q = ext_q.split_off(N_PT_PER_FRAME);
        self.hist_i = hist_i;
        self.hist_q = hist_q;

        // Gather the batch; emit once `nbatch` frames are in.
        proof {
            assert((pre.nframes + 1) * pre.frame_len() == pre.nframes * pre.frame_len()
                + pre.frame_len()) by (nonlinear_arith);
            lemma_mul_inequality(pre.nframes + 1, pre.nbatch as int, pre.frame_len());
        }
        self.acc.append(&mut fr);
        self.nframes = self.nframes + 1;
        if self.nframes == self.nbatch {
            self.nframes = 0;
            let out = self.acc.split_off(0);
            proof {
                assert(out@ == pre.acc@ + pre.frame_iq(data@));
                assert(self.acc@.len() == 0);
            }
            Some(out)
        } else {
            None
        }
    }
}

proof fn lemma_dot_prefix_shift(s: Seq<i64>, taps: Seq<i64>, a: int, off: int, k: int)
    requires
        0 <= k <= taps.len(),
        0 <= a,
        0 <= off,
        a + off + k <= s.len(),
    ensures
        dot_prefix(s.subrange(a, s.len() as int), taps, off, k) == dot_prefix(s, taps, a + off, k),
    decreases k,
{
    if k > 0 {
        lemma_dot_prefix_shift(s, taps, a, off, k - 1);
        assert(s.subrange(a, s.len() as int)[off + k - 1] == s[a + off + k - 1]);
    }
}

/// Shifting: the filter dotted against a suffix of a stream equals the
/// filter dotted against the whole stream at the shifted offset.
pub proof fn lemma_dot_shift(s: Seq<i64>, taps: Seq<i64>, a: int, off: int)
    requires
        0 <= a,
        0 <= off,
        a + off + taps.len() <= s.len(),
    ensures
        dot(s.subrange(a, s.len() as int), taps, off) == dot(s, taps, a + off),
{
    lemma_dot_prefix_shift(s, taps, a, off, taps.len() as int);
}

/// Law: the overlap retained between frames preserves convolution
/// continuity.  Let `post` be the converter after `pre` has taken the
/// frame `f1` (its overlap is the tail of `f1`'s mixed stream).  Then the
/// outputs `post` computes for the next frame `f2` are exactly the
/// filter slid over the two frames' concatenated mixed stream, at the
/// stride offsets that continue `f1`'s outputs — as if both frames had
/// been filtered in one piece.
pub proof fn lemma_overlap_preserves_continuity(
    pre: DownConverter,
    post: DownConverter,
    f1: Seq<i16>,
    f2: Seq<i16>,
)
    requires
        pre.wf(),
        post.wf(),
        f1.len() == N_PT_PER_FRAME,
        f2.len() == N_PT_PER_FRAME,
        post.same_config(pre),
        post.hist_i@ == pre.ext_i(f1).subrange(
            N_PT_PER_FRAME as int,
            pre.ext_i(f1).len() as int,
        ),
        post.hist_q@ == pre.ext_q(f1).subrange(
            N_PT_PER_FRAME as int,
            pre.ext_q(f1).len() as int,
        ),
    ensures
        forall|j: int|
            0 <= j < post.frame_len() ==> #[trigger] post.frame_iq(f2)[j] == (IqSample {
                re: dot(
                    pre.ext_i(f1) + mixed(f2, pre.lo_i@),
                    pre.taps@,
                    N_PT_PER_FRAME + j * pre.ndec,
                ) as i64,
                im: dot(
                    pre.ext_q(f1) + mixed(f2, pre.lo_q@),
                    pre.taps@,
                    N_PT_PER_FRAME + j * pre.ndec,
                ) as i64,
            }),
{
    let np = N_PT_PER_FRAME as int;
    let ntap = pre.taps@.len() as int;
    let si = pre.ext_i(f1) + mixed(f2, pre.lo_i@);
    let sq = pre.ext_q(f1) + mixed(f2, pre.lo_q@);
    // The next frame's working stream is exactly the tail of the
    // concatenated stream.
    assert(post.ext_i(f2) =~= si.subrange(np, si.len() as int));
    assert(post.ext_q(f2) =~= sq.subrange(np, sq.len() as int));
    lemma_fundamental_div_mod(np, pre.ndec as int);
    assert forall|j: int| 0 <= j < post.frame_len() implies #[trigger] post.frame_iq(f2)[j]
        == (IqSample {
        re: dot(si, pre.taps@, np + j * pre.ndec) as i64,
        im: dot(sq, pre.taps@, np + j * pre.ndec) as i64,
    }) by {
        assert(j * pre.ndec + ntap <= np + ntap - 1) by (nonlinear_arith)
            requires
                0 <= j < post.frame_len(),
                post.frame_len() == np / pre.ndec as int,
                np == pre.ndec as int * (np / pre.ndec as int) + np % pre.ndec as int,
                np % pre.ndec as int == 0,
                0 < pre.ndec,
        ;
        lemma_dot_shift(si, pre.taps@, np, j * pre.ndec);
        lemma_dot_shift(sq, pre.taps@, np, j * pre.ndec);
        assert(dot(post.ext_i(f2), pre.taps@, j * pre.ndec) == dot(si, pre.taps@, np + j
            * pre.ndec));
        assert(dot(post.ext_q(f2), pre.taps@, j * pre.ndec) == dot(sq, pre.taps@, np + j
            * pre.ndec));
    }
}

/// Law: an emission's length equals the frame length times the batch
/// factor, divided by the decimation factor.
pub proof fn lemma_out_len_formula(d: DownConverter)
    requires
        d.wf(),
    ensures
        d.out_len() == (N_PT_PER_FRAME as int * d.nbatch as int) / d.ndec as int,
{
    let q = N_PT_PER_FRAME as int / d.ndec as int;
    let nd = d.ndec as int;
    let nb = d.nbatch as int;
    lemma_fundamental_div_mod(N_PT_PER_FRAME as int, nd);
    assert(N_PT_PER_FRAME as int * nb == nd * (q * nb)) by (nonlinear_arith)
        requires
            N_PT_PER_FRAME as int == nd * q,
    ;
    vstd::arithmetic::div_mod::lemma_div_multiples_vanish(q * nb, nd);
}

/// Law: with a unit oscillator table (in-phase leg all one, quadrature
/// leg all zero), a single unit filter tap and no decimation, one frame
/// passes through the converter unchanged: each output's real part is the
/// matching input sample and each imaginary part is zero.
pub proof fn lemma_identity_configuration(d: DownConverter, data: Seq<i16>)
    requires
        d.wf(),
        data.len() == N_PT_PER_FRAME,
        d.ndec == 1,
        d.taps@ =~= seq![1i64],
        forall|i: int| 0 <= i < d.lo_i@.len() ==> #[trigger] d.lo_i@[i] == 1i64,
        forall|i: int| 0 <= i < d.lo_q@.len() ==> #[trigger] d.lo_q@[i] == 0i64,
    ensures
        d.frame_iq(data).len() == N_PT_PER_FRAME,
        forall|j: int|
            0 <= j < N_PT_PER_FRAME ==> #[trigger] d.frame_iq(data)[j] == (IqSample {
                re: data[j] as i64,
                im: 0,
            }),
{
    assert(d.frame_len() == N_PT_PER_FRAME);
    assert(d.hist_i@.len() == 0);
    assert(d.hist_q@.len() == 0);
    let ei = d.ext_i(data);
    let eq = d.ext_q(data);
    assert(ei =~= mixed(data, d.lo_i@));
    assert(eq =~= mixed(data, d.lo_q@));
    assert forall|j: int| 0 <= j < N_PT_PER_FRAME implies #[trigger] d.frame_iq(data)[j]
        == (IqSample { re: data[j] as i64, im: 0 }) by {
        assert(dot_prefix(ei, d.taps@, j, 0) == 0);
        assert(dot(ei, d.taps@, j) == d.taps@[0] * ei[j]);
        assert(ei[j] == (data[j] * 1) as i64);
        assert(dot_prefix(eq, d.taps@, j, 0) == 0);
        assert(dot(eq, d.taps@, j) == d.taps@[0] * eq[j]);
        assert(eq[j] == (data[j] * 0) as i64);
        assert(j * d.ndec == j);
    }
}

} // verus!

