use vstd::prelude::*;

use crate::payload::N_PT_PER_FRAME;

verus! {

/// Largest channel count the framer accepts; keeps `2 * nch` well inside
/// the address space.
pub const NCH_MAX: usize = 268435456;

/// Bookkeeping of the short-time FFT framer.  Frames of raw samples are
/// gathered into a buffer of `nbuf = max(2 * nch, frame length)` samples;
/// whenever the buffer fills, it is handed to the transform whole and the
/// cursor starts over.
pub struct FftFramer {
    /// Spectral channels per transform; the transform length is `2 * nch`.
    pub nch: usize,
    /// Sample capacity of the gathering buffer.
    pub nbuf: usize,
    /// Samples gathered so far into the current buffer.
    pub offset: usize,
    /// Buffers completed since construction.
    pub nfull: Ghost<int>,
}

impl FftFramer {
    pub open spec fn wf(self) -> bool {
        &&& 0 < self.nch <= NCH_MAX
        &&& (N_PT_PER_FRAME as int % (2 * self.nch) as int == 0 || (2 * self.nch) as int
            % N_PT_PER_FRAME as int == 0)
        &&& self.nbuf == (if 2 * self.nch > N_PT_PER_FRAME {
            2 * self.nch
        } else {
            N_PT_PER_FRAME as int
        })
        &&& self.nbuf as int % N_PT_PER_FRAME as int == 0
        &&& self.offset < self.nbuf
        &&& self.offset as int % N_PT_PER_FRAME as int == 0
        &&& self.nfull@ >= 0
    }

    /// The transform length must tile the frame length, one way or the
    /// other.
    pub fn new(nch: usize) -> (f: Self)
        requires
            0 < nch <= NCH_MAX,
            N_PT_PER_FRAME as int % (2 * nch) as int == 0 || (2 * nch) as int
                % N_PT_PER_FRAME as int == 0,
        ensures
            f.wf(),
            f.nch == nch,
            f.offset == 0,
            f.nfull@ == 0,
    {
        let two_nch = 2 * nch;
        let nbuf = if two_nch > N_PT_PER_FRAME {
            two_nch
        } else {
            N_PT_PER_FRAME
        };
        proof {
            let t = (2 * nch) as int;
            let np = N_PT_PER_FRAME as int;
            if t > np {
                // A frame is shorter than the transform, so it cannot tile
                // it; the other side of the disjunction must hold.
                assert(np % t == np) by (nonlinear_arith)
                    requires
                        0 < np < t,
                ;
            } else {
                assert(np % np == 0) by (nonlinear_arith)
                    requires
                        np > 0,
                ;
            }
        }
        FftFramer { nch, nbuf, offset: 0, nfull: Ghost(0) }
    }

    /// Note that one frame's worth of samples has been copied into the
    /// buffer.  True exactly when the buffer just filled, i.e. when the
    /// samples gathered reach `nbuf` and the transform must run now.
    pub fn push_frame(&mut self) -> (full: bool)
        requires
            old(self).wf(),
        ensures
            final(self).wf(),
            final(self).nch == old(self).nch,
            final(self).nbuf == old(self).nbuf,
            full <==> old(self).offset + N_PT_PER_FRAME == old(self).nbuf,
            full ==> final(self).offset == 0 && final(self).nfull@ == old(self).nfull@ + 1,
            !full ==> final(self).offset == old(self).offset + N_PT_PER_FRAME,
            !full ==> final(self).nfull@ == old(self).nfull@,
    {
        proof {
            // Both the cursor and the capacity are multiples of the frame
            // length, so a frame always fits.
            let np = N_PT_PER_FRAME as int;
            let o = self.offset as int;
            let b = self.nbuf as int;
            assert(o + np <= b) by (nonlinear_arith)
                requires
                    o % np == 0,
                    b % np == 0,
                    0 <= o < b,
                    np > 0,
            ;
        }
        self.offset = self.offset + N_PT_PER_FRAME;
        if self.offset == self.nbuf {
            self.offset = 0;
            proof {
                self.nfull@ = self.nfull@ + 1;
            }
            true
        } else {
            false
        }
    }
}

/// Bookkeeping of the spectral integrator.  Power spectra arrive in
/// blocks of `nch` bins; each block is added into the running sum, and
/// after every `nint` additions the integrated spectrum is emitted and
/// the sum starts over.
pub struct Integrator {
    /// Spectral channels per block.
    pub nch: usize,
    /// Blocks integrated per emission.
    pub nint: usize,
    /// Blocks added into the running sum so far.
    pub add_cnt: usize,
    /// Blocks ever accepted.
    pub total: Ghost<int>,
}

impl Integrator {
    pub open spec fn wf(self) -> bool {
        &&& 0 < self.nch
        &&& 0 < self.nint
        &&& self.add_cnt < self.nint
        &&& self.total@ >= 0
        &&& self.add_cnt as int == self.total@ % self.nint as int
    }

    pub fn new(nch: usize, nint: usize) -> (g: Self)
        requires
            0 < nch,
            0 < nint,
        ensures
            g.wf(),
            g.nch == nch,
            g.nint == nint,
            g.add_cnt == 0,
            g.total@ == 0,
    {
        proof {
            assert(0int % nint as int == 0) by (nonlinear_arith)
                requires
                    nint > 0,
            ;
        }
        Integrator { nch, nint, add_cnt: 0, total: Ghost(0) }
    }

    /// Note that one block has been added into the running sum.  True
    /// exactly when this block completes an integration, i.e. on every
    /// `nint`-th block and never otherwise.
    pub fn push_block(&mut self) -> (emit: bool)
        requires
            old(self).wf(),
        ensures
            final(self).wf(),
            final(self).nch == old(self).nch,
            final(self).nint == old(self).nint,
            final(self).total@ == old(self).total@ + 1,
            emit <==> old(self).add_cnt + 1 == old(self).nint,
            emit <==> (old(self).total@ + 1) % old(self).nint as int == 0,
            emit ==> final(self).add_cnt == 0,
            !emit ==> final(self).add_cnt == old(self).add_cnt + 1,
    {
        proof {
            let n = self.nint as int;
            let t = self.total@;
            assert((t + 1) % n == if t % n + 1 == n {
                0int
            } else {
                t % n + 1
            }) by (nonlinear_arith)
                requires
                    n > 0,
                    t >= 0,
            ;
        }
        proof {
            self.total@ = self.total@ + 1;
        }
        self.add_cnt = self.add_cnt + 1;
        if self.add_cnt == self.nint {
            self.add_cnt = 0;
            true
        } else {
            false
        }
    }
}

} // verus!
