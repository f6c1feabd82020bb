//! The 4-byte frame header: a 20-bit sequence number and a 12-bit payload
//! length, packed little-endian as `(seq << 12) | size`.

use vstd::prelude::*;

verus! {

/// Number of bytes a header takes at the start of every frame.
pub const HEADER_SIZE: usize = 4;

/// Sequence numbers must stay below this bound (20 bits).
pub const SEQ_LIMIT: u32 = 0x10_0000;

/// Payload lengths must stay below this bound (12 bits).
pub const SIZE_LIMIT: u16 = 0x1000;

#[derive(Clone, Copy, Debug, PartialEq, Eq, Structural)]
pub struct Header {
    pub seq: u32,
    pub size: u16,
}

#[derive(Clone, Copy, Debug, PartialEq, Eq, Structural)]
pub enum HeaderError {
    /// The sequence number or the size does not fit its bit width.
    InvalidHeaderField,
}

/// The 32-bit word a header with these fields packs into.
pub open spec fn header_word(seq: int, size: int) -> int {
    seq * 4096 + size
}

/// Whether both fields fit their bit widths.
pub open spec fn header_fits(h: Header) -> bool {
    h.seq < SEQ_LIMIT && h.size < SIZE_LIMIT
}

/// The value of the first four bytes read as a little-endian unsigned integer.
pub open spec fn le_word(b: Seq<u8>) -> int {
    b[0] as int + b[1] as int * 0x100 + b[2] as int * 0x1_0000 + b[3] as int * 0x100_0000
}

/// The four little-endian bytes of `x`.
pub open spec fn le_bytes(x: int) -> Seq<u8> {
    seq![
        (x % 0x100) as u8,
        (x / 0x100 % 0x100) as u8,
        (x / 0x1_0000 % 0x100) as u8,
        (x / 0x100_0000 % 0x100) as u8,
    ]
}

/// The header that the first four bytes of `b` hold.
pub open spec fn header_of(b: Seq<u8>) -> Header {
    Header { seq: (le_word(b) / 4096) as u32, size: (le_word(b) % 4096) as u16 }
}

/// The four bytes that encode `h`.
pub open spec fn header_bytes(h: Header) -> Seq<u8> {
    le_bytes(header_word(h.seq as int, h.size as int))
}

proof fn lemma_le_word_bits(b0: u8, b1: u8, b2: u8, b3: u8)
    ensures
        (b0 as u32 | ((b1 as u32) << 8u32) | ((b2 as u32) << 16u32) | ((b3 as u32) << 24u32))
            as int == b0 as int + b1 as int * 0x100 + b2 as int * 0x1_0000 + b3 as int
            * 0x100_0000,
{
    assert((b0 as u32 | ((b1 as u32) << 8u32) | ((b2 as u32) << 16u32) | ((b3 as u32) << 24u32))
        == b0 as u32 + b1 as u32 * 0x100 + b2 as u32 * 0x1_0000 + b3 as u32 * 0x100_0000)
        by (bit_vector);
}

/// Reads the header at the start of `b`. Any four bytes give some header.
pub fn parse_header(b: &[u8]) -> (h: Header)
    requires
        b@.len() >= HEADER_SIZE,
    ensures
        h == header_of(b@),
        header_fits(h),
{
    let x: u32 = (b[0] as u32) | ((b[1] as u32) << 8u32) | ((b[2] as u32) << 16u32) | ((
    b[3] as u32) << 24u32);
    proof {
        lemma_le_word_bits(b[0], b[1], b[2], b[3]);
        assert(x >> 12u32 == x / 4096) by (bit_vector);
        assert(x & 0xfffu32 == x % 4096) by (bit_vector);
    }
    Header { seq: x >> 12u32, size: (x & 0xfffu32) as u16 }
}

/// Writes the encoding of `h` into the first four bytes of `output`, or
/// refuses a header whose fields do not fit, leaving `output` as it was.
pub fn build_header(h: Header, output: &mut [u8]) -> (r: Result<(), HeaderError>)
    requires
        old(output)@.len() >= HEADER_SIZE,
    ensures
        r is Ok <==> header_fits(h),
        r is Ok ==> final(output)@ == header_bytes(h) + old(output)@.subrange(
            HEADER_SIZE as int,
            old(output)@.len() as int,
        ),
        r is Err ==> final(output)@ == old(output)@,
{
    if h.seq >= SEQ_LIMIT || h.size >= SIZE_LIMIT {
        return Err(HeaderError::InvalidHeaderField);
    }
    let x: u32 = (h.seq << 12u32) | (h.size as u32);
    let seq = h.seq;
    let size = h.size as u32;
    proof {
        assert(seq < 0x10_0000u32 && size < 0x1000u32 ==> (seq << 12u32) | size == seq * 4096
            + size) by (bit_vector);
    }
    let ghost before = output@;
    output[0] = (x & 0xffu32) as u8;
    output[1] = ((x >> 8u32) & 0xffu32) as u8;
    output[2] = ((x >> 16u32) & 0xffu32) as u8;
    output[3] = ((x >> 24u32) & 0xffu32) as u8;
    proof {
        assert(x & 0xffu32 == x % 0x100) by (bit_vector);
        assert((x >> 8u32) & 0xffu32 == x / 0x100 % 0x100) by (bit_vector);
        assert((x >> 16u32) & 0xffu32 == x / 0x1_0000 % 0x100) by (bit_vector);
        assert((x >> 24u32) & 0xffu32 == x / 0x100_0000 % 0x100) by (bit_vector);
        assert(output@ =~= header_bytes(h) + before.subrange(4, before.len() as int));
    }
    Ok(())
}

/// Parsing what was built gives back the header, for every header whose
/// fields fit their bit widths.
pub proof fn lemma_header_round_trip(h: Header)
    requires
        header_fits(h),
    ensures
        header_of(header_bytes(h)) == h,
{
    let w = header_word(h.seq as int, h.size as int);
    let s = h.seq;
    let z = h.size;
    assert(0 <= w < 0x1_0000_0000) by (nonlinear_arith)
        requires
            w == s * 4096 + z,
            s < 0x10_0000,
            z < 0x1000,
    ;
    let b = header_bytes(h);
    assert(le_word(b) == w) by (nonlinear_arith)
        requires
            0 <= w,
            b[0] as int == w % 0x100,
            b[1] as int == w / 0x100 % 0x100,
            b[2] as int == w / 0x1_0000 % 0x100,
            b[3] as int == w / 0x100_0000 % 0x100,
            w < 0x1_0000_0000,
    ;
    assert(w / 4096 == s && w % 4096 == z) by (nonlinear_arith)
        requires
            w == s * 4096 + z,
            0 <= z < 4096,
            0 <= s,
    ;
}

} // verus!
