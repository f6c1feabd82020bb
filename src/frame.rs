//! Frames on the wire: a header followed by `size` payload bytes, and the
//! payload of the metadata frame (file length, then a NUL-terminated name).

use vstd::prelude::*;
use crate::header::{header_bytes, header_of, parse_header, build_header, Header, HeaderError, HEADER_SIZE, SEQ_LIMIT, SIZE_LIMIT};

verus! {

/// A frame split into its header and its payload.
pub struct Frame {
    pub header: Header,
    pub payload: Vec<u8>,
}

#[derive(Clone, Copy, Debug, PartialEq, Eq, Structural)]
pub enum FrameError {
    /// The bytes are shorter than the header, or than the payload it announces.
    Truncated,
}

#[derive(Clone, Copy, Debug, PartialEq, Eq, Structural)]
pub enum MetadataError {
    /// Fewer than eight bytes of file length, or no NUL after the name.
    Malformed,
}

/// Number of bytes that hold the file length in a metadata payload.
pub const LENGTH_BYTES: usize = 8;

/// Powers of 256.
pub open spec fn pow256(n: nat) -> int
    decreases n,
{
    if n == 0 {
        1
    } else {
        256 * pow256((n - 1) as nat)
    }
}

/// The value of `b` read as a little-endian unsigned integer.
pub open spec fn le_value(b: Seq<u8>) -> int
    decreases b.len(),
{
    if b.len() == 0 {
        0
    } else {
        b[0] as int + 256 * le_value(b.drop_first())
    }
}

/// The bytes of a frame with this sequence number and payload.
pub open spec fn frame_bytes(seq: u32, payload: Seq<u8>) -> Seq<u8> {
    header_bytes(Header { seq, size: payload.len() as u16 }) + payload
}

/// No byte of `s` is NUL.
pub open spec fn nul_free(s: Seq<u8>) -> bool {
    forall|i: int| 0 <= i < s.len() ==> s[i] != 0
}

/// Whether the name in metadata payload `p` is `k` bytes long: they are
/// followed by a NUL and hold none.
pub open spec fn is_name_len(p: Seq<u8>, k: int) -> bool {
    0 <= k && LENGTH_BYTES + k < p.len() && p[LENGTH_BYTES + k] == 0 && nul_free(
        p.subrange(LENGTH_BYTES as int, LENGTH_BYTES + k),
    )
}

/// The file length a well-formed metadata payload holds.
pub open spec fn metadata_length(p: Seq<u8>) -> int {
    le_value(p.subrange(0, LENGTH_BYTES as int))
}

/// The file name a well-formed metadata payload holds.
pub open spec fn metadata_name(p: Seq<u8>) -> Seq<u8> {
    let k = choose|k: int| is_name_len(p, k);
    p.subrange(LENGTH_BYTES as int, LENGTH_BYTES + k)
}

proof fn lemma_name_len_unique(p: Seq<u8>, k: int)
    requires
        is_name_len(p, k),
    ensures
        metadata_name(p) == p.subrange(LENGTH_BYTES as int, LENGTH_BYTES + k),
{
    let j = choose|j: int| is_name_len(p, j);
    if j < k {
        assert(p.subrange(LENGTH_BYTES as int, LENGTH_BYTES + k)[j] == 0);
    } else if k < j {
        assert(p.subrange(LENGTH_BYTES as int, LENGTH_BYTES + j)[k] == 0);
    }
}

/// Whether `p` is a well-formed metadata payload.
pub open spec fn metadata_well_formed(p: Seq<u8>) -> bool {
    p.len() >= LENGTH_BYTES && !nul_free(p.subrange(LENGTH_BYTES as int, p.len() as int))
}

/// Splits raw frame bytes into header and payload; bytes after the payload
/// are ignored.
pub fn split_frame(raw: &[u8]) -> (r: Result<Frame, FrameError>)
    ensures
        r is Ok <==> raw@.len() >= HEADER_SIZE && raw@.len() >= HEADER_SIZE + header_of(
            raw@,
        ).size,
        r matches Ok(f) ==> f.header == header_of(raw@) && f.payload@ == raw@.subrange(
            HEADER_SIZE as int,
            HEADER_SIZE + f.header.size,
        ),
{
    if raw.len() < HEADER_SIZE {
        return Err(FrameError::Truncated);
    }
    let header = parse_header(raw);
    let end: usize = HEADER_SIZE + header.size as usize;
    if raw.len() < end {
        return Err(FrameError::Truncated);
    }
    let mut payload: Vec<u8> = Vec::new();
    let mut i: usize = HEADER_SIZE;
    while i < end
        invariant
            HEADER_SIZE <= i <= end <= raw@.len(),
            payload@ == raw@.subrange(HEADER_SIZE as int, i as int),
        decreases end - i,
    {
        payload.push(raw[i]);
        i = i + 1;
        assert(payload@ =~= raw@.subrange(HEADER_SIZE as int, i as int));
    }
    Ok(Frame { header, payload })
}

/// Builds the bytes of a frame carrying `payload` under sequence number
/// `seq`; refuses a sequence number or a payload length that does not fit
/// the header.
pub fn build_frame(seq: u32, payload: &[u8]) -> (r: Result<Vec<u8>, HeaderError>)
    ensures
        r is Ok <==> seq < SEQ_LIMIT && payload@.len() < SIZE_LIMIT,
        r matches Ok(v) ==> v@ == frame_bytes(seq, payload@),
{
    if payload.len() >= SIZE_LIMIT as usize {
        return Err(HeaderError::InvalidHeaderField);
    }
    let mut out: Vec<u8> = vec![0u8, 0u8, 0u8, 0u8];
    let h = Header { seq, size: payload.len() as u16 };
    match build_header(h, out.as_mut_slice()) {
        Err(e) => {
            return Err(e);
        },
        Ok(()) => {},
    }
    assert(out@ =~= header_bytes(h));
    let mut i: usize = 0;
    while i < payload.len()
        invariant
            i <= payload@.len(),
            out@ == header_bytes(h) + payload@.subrange(0, i as int),
        decreases payload@.len() - i,
    {
        out.push(payload[i]);
        i = i + 1;
        assert(out@ =~= header_bytes(h) + payload@.subrange(0, i as int));
    }
    assert(payload@.subrange(0, payload@.len() as int) =~= payload@);
    Ok(out)
}

proof fn lemma_le_value_push(b: Seq<u8>, c: u8)
    ensures
        le_value(b.push(c)) == le_value(b) + pow256(b.len()) * c,
    decreases b.len(),
{
    let bc = b.push(c);
    if b.len() > 0 {
        let t = b.drop_first();
        assert(bc.drop_first() =~= t.push(c));
        lemma_le_value_push(t, c);
        let p = pow256(t.len());
        assert(pow256(b.len()) == 256 * p);
        assert(bc[0] == b[0]);
        assert(256 * (le_value(t) + p * c) == 256 * le_value(t) + (256 * p) * c)
            by (nonlinear_arith);
        assert(le_value(bc) == bc[0] as int + 256 * le_value(bc.drop_first()));
        assert(le_value(b) == b[0] as int + 256 * le_value(t));
    } else {
        assert(bc.drop_first() =~= Seq::<u8>::empty());
        assert(pow256(0) == 1);
        assert(le_value(Seq::<u8>::empty()) == 0);
        assert(le_value(b) == 0);
        assert(le_value(bc) == bc[0] as int + 256 * le_value(bc.drop_first()));
        assert(bc[0] == c);
    }
}

/// The eight little-endian bytes of `x`.
fn length_bytes(x: u64) -> (r: Vec<u8>)
    ensures
        r@.len() == LENGTH_BYTES,
        le_value(r@) == x,
{
    let mut out: Vec<u8> = Vec::new();
    let mut v: u64 = x;
    let mut i: usize = 0;
    assert(le_value(out@) == 0);
    while i < LENGTH_BYTES
        invariant
            i <= LENGTH_BYTES,
            out@.len() == i,
            x == le_value(out@) + pow256(i as nat) * v,
            pow256(i as nat) * v <= x,
        decreases LENGTH_BYTES - i,
    {
        let c: u8 = (v % 256) as u8;
        proof {
            lemma_le_value_push(out@, c);
            let p = pow256(i as nat);
            lemma_pow256_mono(0, i as nat);
            assert(pow256((i + 1) as nat) == 256 * p);
            assert(p * (v as int) == p * c + 256 * p * (v / 256)) by (nonlinear_arith)
                requires
                    c == v % 256,
            ;
            assert(256 * p * (v / 256) <= p * v) by (nonlinear_arith)
                requires
                    p >= 0,
            ;
        }
        out.push(c);
        v = v / 256;
        i = i + 1;
    }
    proof {
        lemma_pow256_eight();
        assert(v == 0) by (nonlinear_arith)
            requires
                0x1_0000_0000_0000_0000 * v <= x,
                x < 0x1_0000_0000_0000_0000,
        ;
    }
    out
}

/// The metadata payload for a file of `file_len` bytes named `name`: the
/// length in eight little-endian bytes, the name, then a NUL.
pub fn metadata_payload(file_len: u64, name: &[u8]) -> (r: Vec<u8>)
    requires
        nul_free(name@),
    ensures
        r@.len() == LENGTH_BYTES + name@.len() + 1,
        le_value(r@.subrange(0, LENGTH_BYTES as int)) == file_len,
        r@.subrange(LENGTH_BYTES as int, LENGTH_BYTES + name@.len()) == name@,
        r@[LENGTH_BYTES + name@.len()] == 0,
        metadata_well_formed(r@),
        metadata_length(r@) == file_len,
        metadata_name(r@) == name@,
{
    let mut out = length_bytes(file_len);
    let ghost head = out@;
    let mut i: usize = 0;
    while i < name.len()
        invariant
            i <= name@.len(),
            out@ == head + name@.subrange(0, i as int),
            head.len() == LENGTH_BYTES,
        decreases name@.len() - i,
    {
        out.push(name[i]);
        i = i + 1;
        assert(out@ =~= head + name@.subrange(0, i as int));
    }
    out.push(0u8);
    assert(out@.subrange(0, LENGTH_BYTES as int) =~= head);
    assert(out@.subrange(LENGTH_BYTES as int, LENGTH_BYTES + name@.len()) =~= name@);
    proof {
        let k = name@.len() as int;
        assert(is_name_len(out@, k));
        lemma_name_len_unique(out@, k);
        assert(out@.subrange(LENGTH_BYTES as int, out@.len() as int)[k] == 0);
    }
    out
}

/// Reads a metadata payload: the file length from the first eight bytes,
/// and the name from the bytes after them up to the first NUL.
pub fn parse_metadata(p: &[u8]) -> (r: Result<(u64, Vec<u8>), MetadataError>)
    ensures
        r is Ok <==> metadata_well_formed(p@),
        r matches Ok((n, name)) ==> n == metadata_length(p@) && name@ == metadata_name(p@),
{
    if p.len() < LENGTH_BYTES {
        return Err(MetadataError::Malformed);
    }
    let mut name: Vec<u8> = Vec::new();
    let mut k: usize = LENGTH_BYTES;
    while k < p.len() && p[k] != 0
        invariant
            LENGTH_BYTES <= k <= p@.len(),
            name@ == p@.subrange(LENGTH_BYTES as int, k as int),
            nul_free(name@),
        decreases p@.len() - k,
    {
        name.push(p[k]);
        k = k + 1;
        assert(name@ =~= p@.subrange(LENGTH_BYTES as int, k as int));
    }
    if k == p.len() {
        assert(p@.subrange(LENGTH_BYTES as int, p@.len() as int) =~= name@);
        return Err(MetadataError::Malformed);
    }
    assert(p@.subrange(LENGTH_BYTES as int, p@.len() as int)[k - LENGTH_BYTES] == 0);
    proof {
        lemma_name_len_unique(p@, k - LENGTH_BYTES);
    }
    let mut n: u64 = 0;
    let mut j: usize = LENGTH_BYTES;
    assert(p@.subrange(8, 8) =~= Seq::<u8>::empty());
    while j > 0
        invariant
            j <= LENGTH_BYTES <= p@.len(),
            n == le_value(p@.subrange(j as int, LENGTH_BYTES as int)),
            n < pow256((LENGTH_BYTES - j) as nat),
        decreases j,
    {
        let ghost prev = n as int;
        j = j - 1;
        proof {
            let s = p@.subrange(j as int, LENGTH_BYTES as int);
            assert(s.drop_first() =~= p@.subrange(j + 1, LENGTH_BYTES as int));
            assert(pow256((LENGTH_BYTES - j) as nat) == 256 * pow256((LENGTH_BYTES - j - 1) as nat));
            assert(pow256((LENGTH_BYTES - j) as nat) <= 0x1_0000_0000_0000_0000) by {
                lemma_pow256_eight();
                lemma_pow256_mono((LENGTH_BYTES - j) as nat, 8);
            }
            assert(256 * prev + p[j as int] < pow256((LENGTH_BYTES - j) as nat)) by (nonlinear_arith)
                requires
                    prev < pow256((LENGTH_BYTES - j - 1) as nat),
                    pow256((LENGTH_BYTES - j) as nat) == 256 * pow256((LENGTH_BYTES - j - 1) as nat),
                    p[j as int] < 256,
            ;
        }
        n = n * 256 + p[j] as u64;
    }
    Ok((n, name))
}

proof fn lemma_pow256_eight()
    ensures
        pow256(8) == 0x1_0000_0000_0000_0000,
{
    reveal_with_fuel(pow256, 9);
}

proof fn lemma_pow256_mono(a: nat, b: nat)
    requires
        a <= b,
    ensures
        pow256(a) <= pow256(b),
        pow256(a) >= 1,
    decreases b,
{
    if b > a {
        lemma_pow256_mono(a, (b - 1) as nat);
    } else if a > 0 {
        lemma_pow256_mono((a - 1) as nat, (a - 1) as nat);
    }
}

} // verus!
