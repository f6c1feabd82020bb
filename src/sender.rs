//! The sending session: slices a source of known length into frames that
//! each fit one barcode symbol of the chosen configuration. A metadata frame
//! (number 0) comes first, data frames are numbered from 1, and an empty
//! terminal frame carries the number the next data frame would have had.
//!
//! The session decides; whoever drives it reads the source and displays the
//! frames. Configuration cannot change while a transfer is under way.

use vstd::prelude::*;
use vstd::arithmetic::div_mod::{lemma_div_pos_is_pos, lemma_fundamental_div_mod};
use crate::capacity::{capacity, compute_block_size, lemma_capacity_above_header, valid_density, Redundancy};
use crate::chunks::{concat, lemma_push};
use crate::frame::{build_frame, frame_bytes, metadata_length, metadata_name, metadata_payload, metadata_well_formed, nul_free, LENGTH_BYTES};
use crate::header::{HEADER_SIZE, SEQ_LIMIT};

verus! {

pub const DEFAULT_DENSITY: u8 = 40;

pub const DEFAULT_INTERVAL_MILLIS: u16 = 500;

pub const DEFAULT_CELL_PIXELS: u8 = 5;

#[derive(Clone, Copy, Debug, PartialEq, Eq, Structural)]
pub enum ConfigError {
    /// A transfer is under way.
    Busy,
    /// The value is outside its range.
    OutOfRange,
}

#[derive(Clone, Copy, Debug, PartialEq, Eq, Structural)]
pub enum SendError {
    /// A transfer is already under way.
    Busy,
    /// The file name holds a NUL byte.
    InvalidName,
    /// The metadata frame does not fit one symbol of this configuration.
    ExceedsCapacity,
    /// The source needs more frames than sequence numbers can count.
    InvalidHeaderField,
}

#[derive(Clone, Copy, Debug, PartialEq, Eq, Structural)]
pub struct SenderSession {
    pub density: u8,
    pub level: Redundancy,
    pub block_size: u16,
    pub interval_millis: u16,
    pub cell_pixels: u8,
    pub streaming: bool,
    pub source_len: u64,
    pub offset: u64,
    pub next_seq: u32,
}

/// Number of data frames for a source of `n` bytes, `p` bytes per frame.
pub open spec fn chunk_count(n: int, p: int) -> int {
    n / p + if n % p == 0 {
        0int
    } else {
        1int
    }
}

pub open spec fn min(a: int, b: int) -> int {
    if a <= b {
        a
    } else {
        b
    }
}

/// The payload part of frame bytes `f`.
pub open spec fn payload_of(f: Seq<u8>) -> Seq<u8> {
    f.subrange(HEADER_SIZE as int, f.len() as int)
}

impl SenderSession {
    /// Payload bytes per data frame.
    pub open spec fn payload_size(&self) -> int {
        self.block_size - HEADER_SIZE
    }

    /// The bytes the next data frame carries.
    pub open spec fn next_len(&self) -> int {
        min(self.payload_size(), self.source_len - self.offset)
    }

    pub open spec fn wf(&self) -> bool {
        &&& valid_density(self.density as int)
        &&& self.block_size == capacity(self.density as int, self.level)
        &&& self.interval_millis >= 1
        &&& self.cell_pixels >= 1
        &&& self.streaming ==> {
            &&& 1 <= self.next_seq
            &&& self.next_seq - 1 <= chunk_count(self.source_len as int, self.payload_size())
            &&& chunk_count(self.source_len as int, self.payload_size()) + 1 < SEQ_LIMIT
            &&& self.offset == min(
                (self.next_seq - 1) * self.payload_size(),
                self.source_len as int,
            )
        }
    }

    /// The state after the session stops: nothing but `streaming` changes.
    pub open spec fn stopped(self) -> Self {
        SenderSession { streaming: false, ..self }
    }

    /// The state after a data frame of `len` bytes.
    pub open spec fn advanced(self, len: int) -> Self {
        SenderSession {
            offset: (self.offset + len) as u64,
            next_seq: (self.next_seq + 1) as u32,
            ..self
        }
    }

    /// A session with the default configuration and no transfer.
    pub fn new() -> (r: Self)
        ensures
            r.wf(),
            !r.streaming,
            r.density == DEFAULT_DENSITY,
            r.level == Redundancy::L,
            r.interval_millis == DEFAULT_INTERVAL_MILLIS,
            r.cell_pixels == DEFAULT_CELL_PIXELS,
            r.block_size == capacity(DEFAULT_DENSITY as int, Redundancy::L),
            r.source_len == 0,
            r.offset == 0,
            r.next_seq == 0,
    {
        let block_size = match compute_block_size(DEFAULT_DENSITY, Redundancy::L) {
            Some(b) => b,
            None => 0,
        };
        SenderSession {
            density: DEFAULT_DENSITY,
            level: Redundancy::L,
            block_size,
            interval_millis: DEFAULT_INTERVAL_MILLIS,
            cell_pixels: DEFAULT_CELL_PIXELS,
            streaming: false,
            source_len: 0,
            offset: 0,
            next_seq: 0,
        }
    }

    /// Chooses the density level, and with it the block size.
    pub fn set_density(&mut self, d: u8) -> (r: Result<(), ConfigError>)
        requires
            old(self).wf(),
        ensures
            final(self).wf(),
            r is Ok <==> !old(self).streaming && valid_density(d as int),
            old(self).streaming ==> r == Err::<(), ConfigError>(ConfigError::Busy),
            !old(self).streaming && !valid_density(d as int) ==> r == Err::<(), ConfigError>(
                ConfigError::OutOfRange,
            ),
            r is Err ==> *final(self) == *old(self),
            r is Ok ==> (*final(self) == SenderSession {
                density: d,
                block_size: capacity(d as int, old(self).level) as u16,
                ..*old(self)
            }),
    {
        if self.streaming {
            return Err(ConfigError::Busy);
        }
        match compute_block_size(d, self.level) {
            Some(b) => {
                self.density = d;
                self.block_size = b;
                Ok(())
            },
            None => Err(ConfigError::OutOfRange),
        }
    }

    /// Chooses the redundancy level, and with it the block size.
    pub fn set_redundancy(&mut self, l: Redundancy) -> (r: Result<(), ConfigError>)
        requires
            old(self).wf(),
        ensures
            final(self).wf(),
            r is Err <==> old(self).streaming,
            old(self).streaming ==> r == Err::<(), ConfigError>(ConfigError::Busy),
            r is Err ==> *final(self) == *old(self),
            r is Ok ==> (*final(self) == SenderSession {
                level: l,
                block_size: capacity(old(self).density as int, l) as u16,
                ..*old(self)
            }),
    {
        if self.streaming {
            return Err(ConfigError::Busy);
        }
        match compute_block_size(self.density, l) {
            Some(b) => {
                self.level = l;
                self.block_size = b;
                Ok(())
            },
            None => Err(ConfigError::OutOfRange),
        }
    }

    /// Chooses the time between two frames, at least one millisecond.
    pub fn set_interval(&mut self, ms: u16) -> (r: Result<(), ConfigError>)
        requires
            old(self).wf(),
        ensures
            final(self).wf(),
            r is Ok <==> !old(self).streaming && ms > 0,
            old(self).streaming ==> r == Err::<(), ConfigError>(ConfigError::Busy),
            !old(self).streaming && ms == 0 ==> r == Err::<(), ConfigError>(
                ConfigError::OutOfRange,
            ),
            r is Err ==> *final(self) == *old(self),
            r is Ok ==> (*final(self) == SenderSession { interval_millis: ms, ..*old(self) }),
    {
        if self.streaming {
            return Err(ConfigError::Busy);
        }
        if ms == 0 {
            return Err(ConfigError::OutOfRange);
        }
        self.interval_millis = ms;
        Ok(())
    }

    /// Chooses how many screen pixels one barcode cell takes, at least one.
    pub fn set_cell_pixels(&mut self, px: u8) -> (r: Result<(), ConfigError>)
        requires
            old(self).wf(),
        ensures
            final(self).wf(),
            r is Ok <==> !old(self).streaming && px > 0,
            old(self).streaming ==> r == Err::<(), ConfigError>(ConfigError::Busy),
            !old(self).streaming && px == 0 ==> r == Err::<(), ConfigError>(
                ConfigError::OutOfRange,
            ),
            r is Err ==> *final(self) == *old(self),
            r is Ok ==> (*final(self) == SenderSession { cell_pixels: px, ..*old(self) }),
    {
        if self.streaming {
            return Err(ConfigError::Busy);
        }
        if px == 0 {
            return Err(ConfigError::OutOfRange);
        }
        self.cell_pixels = px;
        Ok(())
    }

    /// Starts a transfer of a source of `source_len` bytes named `name`, and
    /// gives the metadata frame to display first.
    pub fn start(&mut self, source_len: u64, name: &[u8]) -> (r: Result<Vec<u8>, SendError>)
        requires
            old(self).wf(),
        ensures
            final(self).wf(),
            r is Err ==> *final(self) == *old(self),
            r is Ok <==> !old(self).streaming && nul_free(name@) && HEADER_SIZE + LENGTH_BYTES
                + name@.len() + 1 <= old(self).block_size && chunk_count(
                source_len as int,
                old(self).payload_size(),
            ) + 1 < SEQ_LIMIT,
            old(self).streaming ==> r == Err::<Vec<u8>, SendError>(SendError::Busy),
            !old(self).streaming && !nul_free(name@) ==> r == Err::<Vec<u8>, SendError>(
                SendError::InvalidName,
            ),
            !old(self).streaming && nul_free(name@) && HEADER_SIZE + LENGTH_BYTES + name@.len() + 1
                > old(self).block_size ==> r == Err::<Vec<u8>, SendError>(
                SendError::ExceedsCapacity,
            ),
            r == Err::<Vec<u8>, SendError>(SendError::InvalidHeaderField) <==> !old(self).streaming
                && nul_free(name@) && HEADER_SIZE + LENGTH_BYTES + name@.len() + 1
                <= old(self).block_size && chunk_count(source_len as int, old(self).payload_size())
                + 1 >= SEQ_LIMIT,
            r is Ok ==> (*final(self) == SenderSession {
                streaming: true,
                source_len,
                offset: 0,
                next_seq: 1,
                ..*old(self)
            }),
            r matches Ok(f) ==> {
                &&& f@ == frame_bytes(0, payload_of(f@))
                &&& f@.len() <= old(self).block_size
                &&& payload_of(f@).len() == LENGTH_BYTES + name@.len() + 1
                &&& metadata_well_formed(payload_of(f@))
                &&& metadata_length(payload_of(f@)) == source_len
                &&& metadata_name(payload_of(f@)) == name@
            },
    {
        if self.streaming {
            return Err(SendError::Busy);
        }
        if has_nul(name) {
            return Err(SendError::InvalidName);
        }
        proof {
            lemma_capacity_above_header(self.density as int, self.level);
        }
        let room: usize = self.block_size as usize;
        if room < HEADER_SIZE + LENGTH_BYTES + 1 || name.len() > room - (HEADER_SIZE + LENGTH_BYTES
            + 1) {
            return Err(SendError::ExceedsCapacity);
        }
        let p: u64 = (self.block_size as usize - HEADER_SIZE) as u64;
        assert(source_len / p < u64::MAX) by (nonlinear_arith)
            requires
                p >= 2,
        ;
        let count: u64 = source_len / p + if source_len % p == 0 {
            0u64
        } else {
            1u64
        };
        if count >= (SEQ_LIMIT - 1) as u64 {
            return Err(SendError::InvalidHeaderField);
        }
        let payload = metadata_payload(source_len, name);
        let frame = match build_frame(0, payload.as_slice()) {
            Ok(f) => f,
            Err(_) => {
                return Err(SendError::InvalidHeaderField);
            },
        };
        self.streaming = true;
        self.source_len = source_len;
        self.offset = 0;
        self.next_seq = 1;
        assert(payload_of(frame@) =~= payload@);
        Ok(frame)
    }

    /// Where the next read of the source starts, and how many bytes it takes.
    pub fn next_read(&self) -> (r: (u64, u64))
        requires
            self.wf(),
            self.streaming,
        ensures
            r.0 == self.offset,
            r.1 == self.next_len(),
    {
        proof {
            lemma_capacity_above_header(self.density as int, self.level);
            lemma_offset_bound(self.source_len as int, self.payload_size(), self.next_seq as int);
        }
        let p: u64 = (self.block_size as usize - HEADER_SIZE) as u64;
        let rest: u64 = self.source_len - self.offset;
        if p <= rest {
            (self.offset, p)
        } else {
            (self.offset, rest)
        }
    }

    /// Takes the bytes of the next read and gives the frame to display: a
    /// data frame, or, once the source is exhausted, the terminal frame, after
    /// which the transfer is over.
    pub fn on_chunk(&mut self, chunk: &[u8]) -> (r: Vec<u8>)
        requires
            old(self).wf(),
            old(self).streaming,
            chunk@.len() == old(self).next_len(),
        ensures
            final(self).wf(),
            r@ == frame_bytes(old(self).next_seq, chunk@),
            r@.len() <= old(self).block_size,
            chunk@.len() == 0 ==> *final(self) == old(self).stopped(),
            chunk@.len() > 0 ==> *final(self) == old(self).advanced(chunk@.len() as int),
    {
        proof {
            lemma_capacity_above_header(self.density as int, self.level);
            lemma_offset_bound(self.source_len as int, self.payload_size(), self.next_seq as int);
        }
        let frame = match build_frame(self.next_seq, chunk) {
            Ok(f) => f,
            Err(_) => Vec::new(),
        };
        if chunk.len() == 0 {
            self.streaming = false;
        } else {
            proof {
                lemma_advance(self.source_len as int, self.payload_size(), self.next_seq as int);
            }
            self.offset = self.offset + chunk.len() as u64;
            self.next_seq = self.next_seq + 1;
        }
        frame
    }

    /// Stops the transfer, if any. Calling it again changes nothing.
    pub fn cancel(&mut self)
        requires
            old(self).wf(),
        ensures
            final(self).wf(),
            *final(self) == old(self).stopped(),
    {
        self.streaming = false;
    }

    /// Whether a transfer is under way, with a frame still to come.
    pub fn is_streaming(&self) -> (r: bool)
        ensures
            r == self.streaming,
    {
        self.streaming
    }
}

/// The payloads of the data frames in `frames`: all but the first, the
/// metadata frame, and the last, the terminal frame.
pub open spec fn data_payloads(frames: Seq<Vec<u8>>) -> Seq<Seq<u8>> {
    Seq::new((frames.len() - 2) as nat, |i: int| payload_of(frames[i + 1]@))
}

/// The source cut into data-frame payloads of `p` bytes each, the last one
/// possibly shorter: payload `i` is bytes `i * p .. min((i + 1) * p, len)`.
pub open spec fn split_source(src: Seq<u8>, p: int) -> Seq<Seq<u8>> {
    Seq::new(
        chunk_count(src.len() as int, p) as nat,
        |i: int| src.subrange(i * p, min((i + 1) * p, src.len() as int)),
    )
}

proof fn lemma_chunk_count(n: int, p: int)
    requires
        n >= 0,
        p >= 1,
    ensures
        chunk_count(n, p) >= 0,
        chunk_count(n, p) * p >= n,
        forall|k: int| 0 <= k < chunk_count(n, p) ==> #[trigger] (k * p) < n,
{
    let q = n / p;
    let r = n % p;
    lemma_fundamental_div_mod(n, p);
    lemma_div_pos_is_pos(n, p);
    let c = chunk_count(n, p);
    if r == 0 {
        assert(c * p >= n) by (nonlinear_arith)
            requires
                c == q,
                n == p * q + r,
                r == 0,
        ;
        assert forall|k: int| 0 <= k < c implies #[trigger] (k * p) < n by {
            assert(k * p < n) by (nonlinear_arith)
                requires
                    0 <= k < c,
                    c == q,
                    n == p * q,
                    p >= 1,
            ;
        }
    } else {
        assert(c * p >= n) by (nonlinear_arith)
            requires
                c == q + 1,
                n == p * q + r,
                r < p,
        ;
        assert forall|k: int| 0 <= k < c implies #[trigger] (k * p) < n by {
            assert(k * p < n) by (nonlinear_arith)
                requires
                    0 <= k < c,
                    c == q + 1,
                    n == p * q + r,
                    0 < r,
                    p >= 1,
            ;
        }
    }
}

proof fn lemma_count_exact(n: int, p: int, k: int)
    requires
        n >= 0,
        p >= 1,
        k >= 0,
        k * p >= n,
        k == 0 || (k - 1) * p < n,
    ensures
        k == chunk_count(n, p),
{
    lemma_chunk_count(n, p);
    let c = chunk_count(n, p);
    if k > c {
        assert((k - 1) * p >= c * p) by (nonlinear_arith)
            requires
                k - 1 >= c,
                p >= 1,
        ;
    } else if k < c {
        assert(k * p < n);
    }
}

proof fn lemma_split_prefix(src: Seq<u8>, p: int, k: int)
    requires
        p >= 1,
        0 <= k <= chunk_count(src.len() as int, p),
    ensures
        concat(split_source(src, p).subrange(0, k)) == src.subrange(0, min(k * p, src.len() as int)),
    decreases k,
{
    let n = src.len() as int;
    let s = split_source(src, p);
    lemma_chunk_count(n, p);
    if k == 0 {
        assert(s.subrange(0, 0) =~= Seq::<Seq<u8>>::empty());
        assert(src.subrange(0, 0) =~= Seq::<u8>::empty());
    } else {
        lemma_split_prefix(src, p, k - 1);
        assert(s.subrange(0, k).drop_last() =~= s.subrange(0, k - 1));
        assert((k - 1) * p < n);
        assert((k - 1) * p + p == k * p) by (nonlinear_arith);
        assert(src.subrange(0, min(k * p, n)) =~= src.subrange(0, (k - 1) * p) + src.subrange(
            (k - 1) * p,
            min(k * p, n),
        ));
    }
}

/// Cutting a source into data-frame payloads loses and repeats nothing: the
/// payloads, one after another, are the source, for every payload size.
pub proof fn lemma_split_source_covers(src: Seq<u8>, p: int)
    requires
        p >= 1,
    ensures
        concat(split_source(src, p)) == src,
{
    let c = chunk_count(src.len() as int, p);
    lemma_chunk_count(src.len() as int, p);
    lemma_split_prefix(src, p, c);
    assert(split_source(src, p).subrange(0, c) =~= split_source(src, p));
    assert(src.subrange(0, src.len() as int) =~= src);
}

/// The state after a whole transfer of `len` bytes whose terminal frame had
/// number `last`.
pub open spec fn finished(s: SenderSession, len: u64, last: u32) -> SenderSession {
    SenderSession { streaming: false, source_len: len, offset: len, next_seq: last, ..s }
}

/// Bytes `start .. start + len` of `source`.
fn copy_range(source: &[u8], start: usize, len: usize) -> (r: Vec<u8>)
    requires
        start + len <= source@.len(),
    ensures
        r@ == source@.subrange(start as int, start + len),
{
    let mut out: Vec<u8> = Vec::new();
    let n: usize = source.len();
    let mut i: usize = 0;
    while i < len
        invariant
            i <= len,
            start + len <= n,
            n == source@.len(),
            out@ == source@.subrange(start as int, start + i),
        decreases len - i,
    {
        out.push(source[start + i]);
        i = i + 1;
        assert(out@ =~= source@.subrange(start as int, start + i));
    }
    out
}

proof fn lemma_payload_of_frame(seq: u32, p: Seq<u8>)
    ensures
        payload_of(frame_bytes(seq, p)) == p,
{
    assert(payload_of(frame_bytes(seq, p)) =~= p);
}

impl SenderSession {
    /// Runs a whole transfer of `source`, named `name`, and gives every frame
    /// in the order of display: the metadata frame, the data frames numbered
    /// from 1, and the terminal frame. The data payloads, one after another,
    /// are exactly `source`.
    pub fn transmit(&mut self, source: &[u8], name: &[u8]) -> (r: Result<Vec<Vec<u8>>, SendError>)
        requires
            old(self).wf(),
        ensures
            final(self).wf(),
            r is Ok ==> !final(self).streaming,
            r is Err ==> *final(self) == *old(self),
            old(self).streaming ==> r is Err,
            !old(self).streaming && nul_free(name@) && HEADER_SIZE + LENGTH_BYTES + name@.len() + 1
                <= old(self).block_size && chunk_count(source@.len() as int, old(self).payload_size())
                + 1 < SEQ_LIMIT ==> r is Ok,
            r matches Ok(frames) ==> {
                &&& frames@.len() >= 2
                &&& *final(self) == finished(*old(self), source@.len() as u64, (frames@.len() - 1) as u32)
                &&& metadata_length(payload_of(frames@[0]@)) == source@.len()
                &&& metadata_name(payload_of(frames@[0]@)) == name@
                &&& forall|i: int|
                    1 <= i < frames@.len() ==> #[trigger] frames@[i]@ == frame_bytes(
                        i as u32,
                        payload_of(frames@[i]@),
                    )
                &&& forall|i: int| 0 <= i < frames@.len() ==> #[trigger] frames@[i]@.len() <= old(self).block_size
                &&& forall|i: int| 1 <= i < frames@.len() - 1 ==> #[trigger] payload_of(frames@[i]@).len() > 0
                &&& payload_of(frames@[frames@.len() - 1]@).len() == 0
                &&& concat(data_payloads(frames@)) == source@
                &&& frames@.len() == chunk_count(source@.len() as int, old(self).payload_size()) + 2
                &&& data_payloads(frames@) == split_source(source@, old(self).payload_size())
                &&& forall|i: int|
                    1 <= i < frames@.len() - 1 ==> #[trigger] payload_of(frames@[i]@).len() == min(
                        old(self).payload_size(),
                        source@.len() - (i - 1) * old(self).payload_size(),
                    )
            },
    {
        let first = match self.start(source.len() as u64, name) {
            Ok(f) => f,
            Err(e) => {
                return Err(e);
            },
        };
        let ghost cfg = *self;
        let mut frames: Vec<Vec<u8>> = Vec::new();
        frames.push(first);
        let ghost mut payloads: Seq<Seq<u8>> = Seq::empty();
        while self.streaming
            invariant
                self.wf(),
                self.block_size == cfg.block_size,
                self.density == cfg.density,
                self.level == cfg.level,
                self.interval_millis == cfg.interval_millis,
                self.cell_pixels == cfg.cell_pixels,
                self.source_len == source@.len(),
                self.streaming ==> frames@.len() == payloads.len() + 1,
                !self.streaming ==> frames@.len() == payloads.len() + 2,
                self.streaming ==> self.next_seq == payloads.len() + 1,
                self.offset <= source@.len(),
                concat(payloads) == source@.subrange(0, self.offset as int),
                metadata_length(payload_of(frames@[0]@)) == source@.len(),
                metadata_name(payload_of(frames@[0]@)) == name@,
                forall|i: int| 0 <= i < frames@.len() ==> #[trigger] frames@[i]@.len() <= cfg.block_size,
                forall|i: int|
                    0 <= i < payloads.len() ==> #[trigger] frames@[i + 1]@ == frame_bytes(
                        (i + 1) as u32,
                        payloads[i],
                    ),
                forall|i: int| 0 <= i < payloads.len() ==> #[trigger] payloads[i].len() > 0,
                forall|i: int|
                    0 <= i < payloads.len() ==> #[trigger] payloads[i] == source@.subrange(
                        i * cfg.payload_size(),
                        min((i + 1) * cfg.payload_size(), source@.len() as int),
                    ),
                payloads.len() == 0 || (payloads.len() - 1) * cfg.payload_size() < source@.len(),
                !self.streaming ==> payloads.len() * cfg.payload_size() >= source@.len(),
                !self.streaming ==> {
                    &&& self.offset == source@.len()
                    &&& self.next_seq == frames@.len() - 1
                    &&& frames@[frames@.len() - 1]@ == frame_bytes(
                        (frames@.len() - 1) as u32,
                        Seq::empty(),
                    )
                },
            decreases source@.len() - self.offset + if self.streaming {
                1int
            } else {
                0int
            },
        {
            let (start, len) = self.next_read();
            let n: usize = source.len();
            assert(start as int + len as int <= n);
            let chunk = copy_range(source, start as usize, len as usize);
            assert(chunk@ == source@.subrange(start as int, start + len));
            let ghost before = *self;
            let ghost prev_frames = frames@;
            let f = self.on_chunk(chunk.as_slice());
            frames.push(f);
            proof {
                let pp = cfg.payload_size();
                let k = payloads.len() as int;
                if chunk@.len() > 0 {
                    assert(before.offset == k * pp);
                    assert(k * pp + pp == (k + 1) * pp) by (nonlinear_arith);
                    assert(before.offset + chunk@.len() <= source@.len());
                    assert(self.offset == before.offset + chunk@.len());
                    lemma_push(payloads, chunk@);
                    assert(source@.subrange(0, self.offset as int) =~= source@.subrange(
                        0,
                        before.offset as int,
                    ) + chunk@);
                    let ghost old_payloads = payloads;
                    payloads = payloads.push(chunk@);
                    assert forall|i: int| 0 <= i < payloads.len() implies #[trigger] payloads[i]
                        == source@.subrange(i * pp, min((i + 1) * pp, source@.len() as int)) by {
                        if i < k {
                            assert(payloads[i] == old_payloads[i]);
                        }
                    }
                    assert forall|i: int| 0 <= i < payloads.len() implies #[trigger] frames@[i + 1]@
                        == frame_bytes((i + 1) as u32, payloads[i]) by {
                        if i < payloads.len() - 1 {
                            assert(frames@[i + 1] == prev_frames[i + 1]);
                        }
                    }
                } else {
                    assert(chunk@ =~= Seq::<u8>::empty());
                    assert(before.offset == source@.len());
                    assert(k * pp >= source@.len());
                }
                assert forall|i: int| 0 <= i < frames@.len() implies #[trigger] frames@[i]@.len()
                    <= cfg.block_size by {
                    if i < frames@.len() - 1 {
                        assert(frames@[i] == prev_frames[i]);
                    }
                }
            }
        }
        proof {
            let fs = frames@;
            let d = data_payloads(fs);
            assert(d =~= payloads) by {
                assert forall|i: int| 0 <= i < payloads.len() implies d[i] == payloads[i] by {
                    lemma_payload_of_frame((i + 1) as u32, payloads[i]);
                }
            }
            assert(source@.subrange(0, source@.len() as int) =~= source@);
            let pp = cfg.payload_size();
            let n = source@.len() as int;
            lemma_count_exact(n, pp, payloads.len() as int);
            lemma_chunk_count(n, pp);
            assert(payloads =~= split_source(source@, pp));
            assert forall|i: int| 1 <= i < fs.len() - 1 implies #[trigger] payload_of(fs[i]@).len()
                == min(pp, n - (i - 1) * pp) by {
                lemma_payload_of_frame(i as u32, payloads[i - 1]);
                assert(fs[(i - 1) + 1]@ == frame_bytes(((i - 1) + 1) as u32, payloads[i - 1]));
                assert((i - 1) * pp < n);
                assert((i - 1) * pp + pp == i * pp) by (nonlinear_arith);
            }
            lemma_payload_of_frame((fs.len() - 1) as u32, Seq::empty());
            assert forall|i: int| 1 <= i < fs.len() implies #[trigger] fs[i]@ == frame_bytes(
                i as u32,
                payload_of(fs[i]@),
            ) by {
                if i < fs.len() - 1 {
                    assert(fs[(i - 1) + 1]@ == frame_bytes(((i - 1) + 1) as u32, payloads[i - 1]));
                    lemma_payload_of_frame(i as u32, payloads[i - 1]);
                }
            }
            assert forall|i: int| 1 <= i < fs.len() - 1 implies #[trigger] payload_of(fs[i]@).len() > 0 by {
                assert(fs[(i - 1) + 1]@ == frame_bytes(((i - 1) + 1) as u32, payloads[i - 1]));
                lemma_payload_of_frame(i as u32, payloads[i - 1]);
            }
        }
        Ok(frames)
    }
}

fn has_nul(name: &[u8]) -> (r: bool)
    ensures
        r == !nul_free(name@),
{
    let mut i: usize = 0;
    while i < name.len()
        invariant
            i <= name@.len(),
            forall|j: int| 0 <= j < i ==> name@[j] != 0,
        decreases name@.len() - i,
    {
        if name[i] == 0 {
            return true;
        }
        i = i + 1;
    }
    false
}

proof fn lemma_offset_bound(n: int, p: int, k: int)
    requires
        p >= 1,
        k >= 1,
        n >= 0,
    ensures
        0 <= min((k - 1) * p, n) <= n,
{
    assert((k - 1) * p >= 0) by (nonlinear_arith)
        requires
            k >= 1,
            p >= 1,
    ;
}

proof fn lemma_advance(n: int, p: int, k: int)
    requires
        p >= 1,
        k >= 1,
        n >= 0,
        min((k - 1) * p, n) < n,
    ensures
        min((k - 1) * p, n) + min(p, n - min((k - 1) * p, n)) == min(k * p, n),
        k <= chunk_count(n, p),
{
    let o = (k - 1) * p;
    assert(k * p == o + p) by (nonlinear_arith)
        requires
            o == (k - 1) * p,
    ;
    if k * p <= n {
        assert(k <= n / p) by (nonlinear_arith)
            requires
                k * p <= n,
                p >= 1,
        ;
    } else {
        assert(k - 1 < n / p + 1) by (nonlinear_arith)
            requires
                o == (k - 1) * p,
                o < n,
                p >= 1,
        ;
        if n % p == 0 {
            assert(k - 1 < n / p) by (nonlinear_arith)
                requires
                    o == (k - 1) * p,
                    o < n,
                    p >= 1,
                    n % p == 0,
            ;
        }
    }
}

/// Cancelling twice leaves the sender as cancelling once, with no step
/// pending.
pub proof fn lemma_sender_cancel_idempotent(s: SenderSession)
    ensures
        s.stopped().stopped() == s.stopped(),
        !s.stopped().streaming,
{
}

} // verus!
