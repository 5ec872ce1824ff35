use vstd::prelude::*;

verus! {

/// Number of 16-bit samples carried by one frame.
pub const N_PT_PER_FRAME: usize = 4096;

/// Byte size of one frame on the wire: a 48-byte header followed by
/// 4096 two-byte samples.
pub const PAYLOAD_NBYTES: usize = 8240;

/// Magic value expected in the `header` field of every frame.
pub const PAYLOAD_MAGIC: u32 = 0x12345678;

/// True when every sample of `s` is zero.
pub open spec fn all_zero(s: Seq<i16>) -> bool {
    forall|i: int| 0 <= i < s.len() ==> s[i] == 0i16
}

/// One UDP datagram's worth of digitizer samples, plus its header.
pub struct Payload {
    pub header: u32,
    pub version: u32,
    pub pkt_cnt: u64,
    pub base_id: i64,
    pub port_id: i64,
    pub npt_per_frame: u64,
    pub reserved: u64,
    pub data: Vec<i16>,
}

impl Payload {
    /// A frame is well formed when it carries exactly one frame's worth
    /// of samples.
    pub open spec fn wf(self) -> bool {
        self.data@.len() == N_PT_PER_FRAME
    }

    /// All header fields of the two frames agree, the packet counter
    /// included; the sample arrays may differ.
    pub open spec fn header_eq(self, other: Self) -> bool {
        &&& self.header == other.header
        &&& self.version == other.version
        &&& self.pkt_cnt == other.pkt_cnt
        &&& self.base_id == other.base_id
        &&& self.port_id == other.port_id
        &&& self.npt_per_frame == other.npt_per_frame
    }

    /// All header fields of the two frames agree except possibly the
    /// packet counter.
    pub open spec fn header_eq_except_cnt(self, other: Self) -> bool {
        &&& self.header == other.header
        &&& self.version == other.version
        &&& self.base_id == other.base_id
        &&& self.port_id == other.port_id
        &&& self.npt_per_frame == other.npt_per_frame
    }

    /// Copy every header field of `rhs` into `self`, leaving the sample
    /// array untouched.
    pub fn copy_header(&mut self, rhs: &Self)
        ensures
            final(self).header_eq(*rhs),
            final(self).data == old(self).data,
            final(self).reserved == old(self).reserved,
    {
        self.header = rhs.header;
        self.version = rhs.version;
        self.pkt_cnt = rhs.pkt_cnt;
        self.base_id = rhs.base_id;
        self.port_id = rhs.port_id;
        self.npt_per_frame = rhs.npt_per_frame;
    }

    /// Overwrite every sample with zero, keeping the header as it is.
    pub fn zero_data(&mut self)
        ensures
            final(self).data@.len() == old(self).data@.len(),
            all_zero(final(self).data@),
            final(self).header_eq(*old(self)),
            final(self).reserved == old(self).reserved,
    {
        let n = self.data.len();
        let mut i: usize = 0;
        while i < n
            invariant
                i <= n,
                n == self.data@.len(),
                forall|j: int| 0 <= j < i ==> self.data@[j] == 0i16,
                self.header_eq(*old(self)),
                self.reserved == old(self).reserved,
            decreases n - i,
        {
            self.data.set(i, 0i16);
            i += 1;
        }
    }
}

/// The little-endian value of the two bytes at `off`.
pub open spec fn le16(b: Seq<u8>, off: int) -> int {
    b[off] + 0x100 * b[off + 1]
}

/// The little-endian value of the four bytes at `off`.
pub open spec fn le32(b: Seq<u8>, off: int) -> int {
    le16(b, off) + 0x10000 * le16(b, off + 2)
}

/// The little-endian value of the eight bytes at `off`.
pub open spec fn le64(b: Seq<u8>, off: int) -> int {
    le32(b, off) + 0x100000000 * le32(b, off + 4)
}

/// A 16-bit raw value read as two's complement.
pub open spec fn signed16(v: int) -> int {
    if v < 0x8000 {
        v
    } else {
        v - 0x10000
    }
}

/// A 64-bit raw value read as two's complement.
pub open spec fn signed64(v: int) -> int {
    if v < 0x8000000000000000 {
        v
    } else {
        v - 0x10000000000000000
    }
}

/// The frame `p` is exactly what the datagram bytes `b` spell in the
/// little-endian wire layout: magic, version, packet counter, base and
/// port identifiers, samples per frame, the reserved word, and the dense
/// array of 16-bit samples.
pub open spec fn decodes_to(b: Seq<u8>, p: Payload) -> bool {
    &&& b.len() == PAYLOAD_NBYTES
    &&& p.header == le32(b, 0)
    &&& p.version == le32(b, 4)
    &&& p.pkt_cnt == le64(b, 8)
    &&& p.base_id == signed64(le64(b, 16))
    &&& p.port_id == signed64(le64(b, 24))
    &&& p.npt_per_frame == le64(b, 32)
    &&& p.reserved == le64(b, 40)
    &&& p.data@.len() == N_PT_PER_FRAME
    &&& forall|i: int|
        0 <= i < N_PT_PER_FRAME ==> #[trigger] p.data@[i] == signed16(le16(b, 48 + 2 * i))
}

fn read_u32(b: &Vec<u8>, off: usize) -> (r: u32)
    requires
        off + 4 <= b@.len(),
    ensures
        r == le32(b@, off as int),
{
    let bl = b.len();
    proof {
        assert(off + 4 <= bl);
    }
    (b[off] as u32) + 0x100 * (b[off + 1] as u32) + 0x10000 * (b[off + 2] as u32) + 0x1000000 * (b[
        off + 3] as u32)
}

fn read_u64(b: &Vec<u8>, off: usize) -> (r: u64)
    requires
        off + 8 <= b@.len(),
    ensures
        r == le64(b@, off as int),
{
    let bl = b.len();
    proof {
        assert(off + 8 <= bl);
    }
    (b[off] as u64) + 0x100 * (b[off + 1] as u64) + 0x10000 * (b[off + 2] as u64) + 0x1000000 * (b[
        off + 3] as u64) + 0x100000000 * (b[off + 4] as u64) + 0x10000000000 * (b[off + 5] as u64)
        + 0x1000000000000 * (b[off + 6] as u64) + 0x100000000000000 * (b[off + 7] as u64)
}

fn read_i64(b: &Vec<u8>, off: usize) -> (r: i64)
    requires
        off + 8 <= b@.len(),
    ensures
        r == signed64(le64(b@, off as int)),
{
    let raw = read_u64(b, off);
    if raw < 0x8000000000000000 {
        raw as i64
    } else {
        -((u64::MAX - raw) as i64) - 1
    }
}

fn read_i16(b: &Vec<u8>, off: usize) -> (r: i16)
    requires
        off + 2 <= b@.len(),
    ensures
        r == signed16(le16(b@, off as int)),
{
    let bl = b.len();
    proof {
        assert(off + 2 <= bl);
    }
    let raw = (b[off] as u16) + 0x100 * (b[off + 1] as u16);
    if raw < 0x8000 {
        raw as i16
    } else {
        -((0xffffu16 - raw) as i16) - 1
    }
}

impl Payload {
    /// Decode one datagram.  Exactly the datagrams of the full frame
    /// length decode; anything shorter or longer is rejected, as the
    /// receiver discards short reads.
    pub fn from_bytes(b: &Vec<u8>) -> (r: Option<Payload>)
        ensures
            b@.len() == PAYLOAD_NBYTES ==> (r matches Some(p) && decodes_to(b@, p)),
            b@.len() != PAYLOAD_NBYTES ==> r is None,
    {
        if b.len() != PAYLOAD_NBYTES {
            return None;
        }
        let header = read_u32(b, 0);
        let version = read_u32(b, 4);
        let pkt_cnt = read_u64(b, 8);
        let base_id = read_i64(b, 16);
        let port_id = read_i64(b, 24);
        let npt_per_frame = read_u64(b, 32);
        let reserved = read_u64(b, 40);
        let mut data: Vec<i16> = Vec::new();
        let mut i: usize = 0;
        while i < N_PT_PER_FRAME
            invariant
                i <= N_PT_PER_FRAME,
                b@.len() == PAYLOAD_NBYTES,
                data@.len() == i,
                forall|j: int|
                    0 <= j < i ==> #[trigger] data@[j] == signed16(le16(b@, 48 + 2 * j)),
            decreases N_PT_PER_FRAME - i,
        {
            let s = read_i16(b, 48 + 2 * i);
            data.push(s);
            i += 1;
        }
        Some(Payload { header, version, pkt_cnt, base_id, port_id, npt_per_frame, reserved, data })
    }
}

fn push_u16(out: &mut Vec<u8>, v: u16)
    ensures
        final(out)@.len() == old(out)@.len() + 2,
        forall|k: int| 0 <= k < old(out)@.len() ==> #[trigger] final(out)@[k] == old(out)@[k],
        le16(final(out)@, old(out)@.len() as int) == v,
{
    let b0 = (v % 0x100) as u8;
    let b1 = (v / 0x100) as u8;
    out.push(b0);
    out.push(b1);
}

fn push_u32(out: &mut Vec<u8>, v: u32)
    ensures
        final(out)@.len() == old(out)@.len() + 4,
        forall|k: int| 0 <= k < old(out)@.len() ==> #[trigger] final(out)@[k] == old(out)@[k],
        le32(final(out)@, old(out)@.len() as int) == v,
{
    let ghost n = out@.len() as int;
    push_u16(out, (v % 0x10000) as u16);
    push_u16(out, (v / 0x10000) as u16);
    proof {
        assert(le16(out@, n) == v % 0x10000);
        assert(le16(out@, n + 2) == v / 0x10000);
    }
}

fn push_u64(out: &mut Vec<u8>, v: u64)
    ensures
        final(out)@.len() == old(out)@.len() + 8,
        forall|k: int| 0 <= k < old(out)@.len() ==> #[trigger] final(out)@[k] == old(out)@[k],
        le64(final(out)@, old(out)@.len() as int) == v,
{
    let ghost n = out@.len() as int;
    push_u32(out, (v % 0x100000000) as u32);
    push_u32(out, (v / 0x100000000) as u32);
    proof {
        assert(le32(out@, n) == v % 0x100000000);
        assert(le32(out@, n + 4) == v / 0x100000000);
    }
}

fn push_i64(out: &mut Vec<u8>, v: i64)
    ensures
        final(out)@.len() == old(out)@.len() + 8,
        forall|k: int| 0 <= k < old(out)@.len() ==> #[trigger] final(out)@[k] == old(out)@[k],
        signed64(le64(final(out)@, old(out)@.len() as int)) == v,
{
    let raw: u64 = if v >= 0 {
        v as u64
    } else {
        u64::MAX - ((-(v + 1)) as u64)
    };
    push_u64(out, raw);
}

fn push_i16(out: &mut Vec<u8>, v: i16)
    ensures
        final(out)@.len() == old(out)@.len() + 2,
        forall|k: int| 0 <= k < old(out)@.len() ==> #[trigger] final(out)@[k] == old(out)@[k],
        signed16(le16(final(out)@, old(out)@.len() as int)) == v,
{
    let raw: u16 = if v >= 0 {
        v as u16
    } else {
        0xffffu16 - ((-(v + 1)) as u16)
    };
    push_u16(out, raw);
}

impl Payload {
    /// Encode the frame into its datagram bytes, the exact inverse of
    /// decoding.
    pub fn to_bytes(&self) -> (b: Vec<u8>)
        requires
            self.wf(),
        ensures
            decodes_to(b@, *self),
    {
        let mut out: Vec<u8> = Vec::new();
        push_u32(&mut out, self.header);
        push_u32(&mut out, self.version);
        push_u64(&mut out, self.pkt_cnt);
        push_i64(&mut out, self.base_id);
        push_i64(&mut out, self.port_id);
        push_u64(&mut out, self.npt_per_frame);
        push_u64(&mut out, self.reserved);
        let ghost hdr = out@;
        let mut i: usize = 0;
        while i < N_PT_PER_FRAME
            invariant
                i <= N_PT_PER_FRAME,
                self.data@.len() == N_PT_PER_FRAME,
                out@.len() == 48 + 2 * i,
                hdr.len() == 48,
                forall|k: int| 0 <= k < 48 ==> #[trigger] out@[k] == hdr[k],
                le32(hdr, 0) == self.header,
                le32(hdr, 4) == self.version,
                le64(hdr, 8) == self.pkt_cnt,
                signed64(le64(hdr, 16)) == self.base_id,
                signed64(le64(hdr, 24)) == self.port_id,
                le64(hdr, 32) == self.npt_per_frame,
                le64(hdr, 40) == self.reserved,
                forall|j: int|
                    0 <= j < i ==> signed16(#[trigger] le16(out@, 48 + 2 * j)) == self.data@[j],
            decreases N_PT_PER_FRAME - i,
        {
            let ghost before = out@;
            push_i16(&mut out, self.data[i]);
            i += 1;
            proof {
                assert forall|j: int| 0 <= j < i implies signed16(#[trigger] le16(out@, 48 + 2 * j))
                    == self.data@[j] by {
                    if j < i - 1 {
                        assert(le16(out@, 48 + 2 * j) == le16(before, 48 + 2 * j));
                    }
                }
            }
        }
        proof {
            assert(le32(out@, 0) == le32(hdr, 0));
            assert(le32(out@, 4) == le32(hdr, 4));
            assert(le64(out@, 8) == le64(hdr, 8));
            assert(le64(out@, 16) == le64(hdr, 16));
            assert(le64(out@, 24) == le64(hdr, 24));
            assert(le64(out@, 32) == le64(hdr, 32));
            assert(le64(out@, 40) == le64(hdr, 40));
        }
        out
    }
}

/// A byte sequence decodes to at most one frame.
pub proof fn lemma_decode_unique(b: Seq<u8>, p1: Payload, p2: Payload)
    requires
        decodes_to(b, p1),
        decodes_to(b, p2),
    ensures
        p1.header == p2.header,
        p1.version == p2.version,
        p1.pkt_cnt == p2.pkt_cnt,
        p1.base_id == p2.base_id,
        p1.port_id == p2.port_id,
        p1.npt_per_frame == p2.npt_per_frame,
        p1.reserved == p2.reserved,
        p1.data@ == p2.data@,
{
    assert(p1.data@ =~= p2.data@);
}

impl Default for Payload {
    /// A fresh frame: magic header, zeroed counters, and a zero-filled
    /// sample array of the fixed frame length.
    fn default() -> (p: Self)
        ensures
            p.wf(),
            p.header == PAYLOAD_MAGIC,
            p.version == 0,
            p.pkt_cnt == 0,
            p.base_id == 0,
            p.port_id == 0,
            p.npt_per_frame == N_PT_PER_FRAME as u64,
            p.reserved == 0,
            all_zero(p.data@),
    {
        let mut data: Vec<i16> = Vec::new();
        while data.len() < N_PT_PER_FRAME
            invariant
                data@.len() <= N_PT_PER_FRAME,
                forall|j: int| 0 <= j < data@.len() ==> data@[j] == 0i16,
            decreases N_PT_PER_FRAME - data@.len(),
        {
            data.push(0i16);
        }
        Payload {
            header: PAYLOAD_MAGIC,
            version: 0,
            pkt_cnt: 0,
            base_id: 0,
            port_id: 0,
            npt_per_frame: N_PT_PER_FRAME as u64,
            reserved: 0,
            data,
        }
    }
}

} // verus!
