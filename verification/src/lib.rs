use vstd::prelude::*;

pub mod payload;
pub mod ddc;
pub mod pipeline;
pub mod sdr;
pub mod waterfall;

verus! {

/// Width of a raw digitizer sample.
pub type RawType = i16;

/// Sample rate of the digitizer's raw stream, in samples per second.
pub const RAW_SAMP_RATE: usize = 480_000_000;

} // verus!
