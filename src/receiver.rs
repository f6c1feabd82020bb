//! The receiving session: takes frames in the order they were decoded,
//! accepts each data chunk once and only in sequence, and notices a missed
//! chunk or the end of the transfer.
//!
//! Data frames are numbered from 1. The terminal frame carries no payload and
//! the number the next data frame would have had, so an empty data frame at
//! or before the next expected number always means the end of the transfer;
//! the sender never emits an empty data chunk.

use vstd::prelude::*;
use crate::chunks::{concat, concat_chunks, lemma_concat_len, lemma_push, lemma_total_len_bound, chunks_below, total_len, views};
use crate::frame::{metadata_length, metadata_name, metadata_well_formed, parse_metadata, split_frame, Frame};
use crate::header::{header_fits, header_of, HEADER_SIZE, SEQ_LIMIT, SIZE_LIMIT};

verus! {

/// What the receiving session holds, as mathematical values.
pub struct RecvModel {
    pub ready: bool,
    pub active: bool,
    pub chunks: Seq<Seq<u8>>,
    pub file_size: Option<u64>,
    pub file_name: Option<Seq<u8>>,
}

/// What handling one frame amounted to.
#[derive(Clone, Copy, Debug, PartialEq, Eq, Structural)]
pub enum Outcome {
    /// A readiness beacon: the optical channel works.
    Ready,
    /// The first well-formed metadata frame: file length and name are set.
    Metadata,
    /// Nothing to do: a later or malformed metadata frame, or a data frame
    /// while capture is stopped.
    Ignored,
    /// The next data chunk, appended.
    Accepted,
    /// A data chunk already accepted, decoded again.
    Duplicate,
    /// The terminal frame: capture stops and the file is complete.
    Complete,
    /// A symbol that could not be decoded, or bytes too short for the frame
    /// their header announces.
    Unreadable,
}

#[derive(Clone, Copy, Debug, PartialEq, Eq, Structural)]
pub enum RecvError {
    /// A data chunk was skipped and can never be recovered; the session is
    /// stopped and cleared.
    SequenceGap,
}

pub struct ReceiverSession {
    pub ready: bool,
    pub active: bool,
    pub chunks: Vec<Vec<u8>>,
    pub total_bytes: usize,
    pub file_size: Option<u64>,
    pub file_name: Option<Vec<u8>>,
}

/// A frame as the receiver can get it from the wire.
pub open spec fn frame_valid(f: Frame) -> bool {
    header_fits(f.header) && f.payload@.len() == f.header.size
}

/// What handling a frame with number `seq` and payload `p` gives in state `m`.
pub open spec fn recv_result(m: RecvModel, seq: int, p: Seq<u8>) -> Result<Outcome, RecvError> {
    if seq == 0 {
        if p.len() == 0 {
            Ok(Outcome::Ready)
        } else if m.file_size is None && metadata_well_formed(p) {
            Ok(Outcome::Metadata)
        } else {
            Ok(Outcome::Ignored)
        }
    } else if !m.active {
        Ok(Outcome::Ignored)
    } else if seq > m.chunks.len() + 1 {
        Err(RecvError::SequenceGap)
    } else if p.len() == 0 {
        Ok(Outcome::Complete)
    } else if seq == m.chunks.len() + 1 {
        Ok(Outcome::Accepted)
    } else {
        Ok(Outcome::Duplicate)
    }
}

/// The state after handling a frame with number `seq` and payload `p` in `m`.
pub open spec fn recv_next(m: RecvModel, seq: int, p: Seq<u8>) -> RecvModel {
    match recv_result(m, seq, p) {
        Ok(Outcome::Ready) => RecvModel { ready: true, ..m },
        Ok(Outcome::Metadata) => RecvModel {
            file_size: Some(metadata_length(p) as u64),
            file_name: Some(metadata_name(p)),
            ..m
        },
        Ok(Outcome::Accepted) => RecvModel { chunks: m.chunks.push(p), ..m },
        Ok(Outcome::Complete) => RecvModel { active: false, ..m },
        Err(_) => RecvModel {
            active: false,
            chunks: Seq::empty(),
            file_size: None,
            file_name: None,
            ..m
        },
        _ => m,
    }
}

/// The state after a cancellation: capture stopped, nothing else changed.
pub open spec fn recv_cancelled(m: RecvModel) -> RecvModel {
    RecvModel { active: false, ..m }
}

/// The state of a session with no transfer under way.
pub open spec fn recv_idle() -> RecvModel {
    RecvModel { active: false, ..recv_started() }
}

/// The state of a freshly started transfer.
pub open spec fn recv_started() -> RecvModel {
    RecvModel {
        ready: false,
        active: true,
        chunks: Seq::empty(),
        file_size: None,
        file_name: None,
    }
}

impl View for ReceiverSession {
    type V = RecvModel;

    open spec fn view(&self) -> RecvModel {
        RecvModel {
            ready: self.ready,
            active: self.active,
            chunks: views(self.chunks@),
            file_size: self.file_size,
            file_name: match self.file_name {
                Some(n) => Some(n@),
                None => None,
            },
        }
    }
}

impl ReceiverSession {
    /// The session's invariant: no more chunks than sequence numbers, each
    /// chunk fits a frame, and `total_bytes` is the sum of their lengths.
    pub open spec fn wf(&self) -> bool {
        &&& self.chunks@.len() < SEQ_LIMIT
        &&& chunks_below(self@.chunks, SIZE_LIMIT as int)
        &&& self.total_bytes == total_len(self@.chunks)
    }

    /// A session with no transfer under way.
    pub fn new() -> (r: Self)
        ensures
            r.wf(),
            r@ == recv_idle(),
    {
        let r = ReceiverSession {
            ready: false,
            active: false,
            chunks: Vec::new(),
            total_bytes: 0,
            file_size: None,
            file_name: None,
        };
        assert(r@.chunks =~= Seq::empty());
        r
    }

    /// Starts a transfer: forgets everything received so far and starts
    /// capturing.
    pub fn start(&mut self)
        ensures
            final(self).wf(),
            final(self)@ == recv_started(),
    {
        self.ready = false;
        self.active = true;
        self.chunks = Vec::new();
        self.total_bytes = 0;
        self.file_size = None;
        self.file_name = None;
        assert(self@.chunks =~= Seq::empty());
    }

    /// Stops capturing. Calling it again changes nothing.
    pub fn cancel(&mut self)
        requires
            old(self).wf(),
        ensures
            final(self).wf(),
            final(self)@ == recv_cancelled(old(self)@),
            !final(self)@.active,
    {
        self.active = false;
    }

    /// Whether another capture cycle is to be scheduled.
    pub fn should_capture(&self) -> (r: bool)
        ensures
            r == self@.active,
    {
        self.active
    }

    /// Handles one decoded frame.
    pub fn on_frame(&mut self, frame: Frame) -> (r: Result<Outcome, RecvError>)
        requires
            old(self).wf(),
            frame_valid(frame),
        ensures
            final(self).wf(),
            r == recv_result(old(self)@, frame.header.seq as int, frame.payload@),
            final(self)@ == recv_next(old(self)@, frame.header.seq as int, frame.payload@),
    {
        let seq = frame.header.seq;
        let ghost m = self@;
        let ghost p = frame.payload@;
        if seq == 0 {
            if frame.payload.len() == 0 {
                self.ready = true;
                return Ok(Outcome::Ready);
            }
            if self.file_size.is_some() {
                return Ok(Outcome::Ignored);
            }
            match parse_metadata(frame.payload.as_slice()) {
                Ok((n, name)) => {
                    self.file_size = Some(n);
                    self.file_name = Some(name);
                    return Ok(Outcome::Metadata);
                },
                Err(_) => {
                    return Ok(Outcome::Ignored);
                },
            }
        }
        if !self.active {
            return Ok(Outcome::Ignored);
        }
        let count = self.chunks.len();
        if seq as usize > count + 1 {
            self.active = false;
            self.chunks = Vec::new();
            self.total_bytes = 0;
            self.file_size = None;
            self.file_name = None;
            assert(self@.chunks =~= Seq::<Seq<u8>>::empty());
            return Err(RecvError::SequenceGap);
        }
        if frame.payload.len() == 0 {
            self.active = false;
            return Ok(Outcome::Complete);
        }
        if seq as usize == count + 1 {
            let len = frame.payload.len();
            proof {
                lemma_total_len_bound(m.chunks, SIZE_LIMIT as int);
                lemma_push(m.chunks, p);
            }
            self.chunks.push(frame.payload);
            self.total_bytes = self.total_bytes + len;
            proof {
                assert(self@.chunks =~= m.chunks.push(p));
                assert forall|i: int| 0 <= i < self@.chunks.len() implies #[trigger] self@.chunks[i].len()
                    < SIZE_LIMIT by {
                    if i < m.chunks.len() {
                        assert(self@.chunks[i] == m.chunks[i]);
                    }
                }
            }
            return Ok(Outcome::Accepted);
        }
        Ok(Outcome::Duplicate)
    }

    /// The received file: all accepted chunks, in order.
    pub fn assemble(&self) -> (r: Vec<u8>)
        ensures
            r@ == concat(self@.chunks),
            self.wf() ==> r@.len() == self.total_bytes,
    {
        proof {
            lemma_concat_len(self@.chunks);
        }
        concat_chunks(&self.chunks)
    }
}

/// Whether raw bytes hold a whole frame.
pub open spec fn raw_complete(raw: Seq<u8>) -> bool {
    raw.len() >= HEADER_SIZE && raw.len() >= HEADER_SIZE + header_of(raw).size
}

/// The payload of the frame that raw bytes hold.
pub open spec fn raw_payload(raw: Seq<u8>) -> Seq<u8> {
    raw.subrange(HEADER_SIZE as int, HEADER_SIZE + header_of(raw).size)
}

/// What handling one decoded symbol (`None`: it could not be decoded) gives.
pub open spec fn symbol_result(m: RecvModel, x: Option<Seq<u8>>) -> Result<Outcome, RecvError> {
    match x {
        Some(raw) => if raw_complete(raw) {
            recv_result(m, header_of(raw).seq as int, raw_payload(raw))
        } else {
            Ok(Outcome::Unreadable)
        },
        None => Ok(Outcome::Unreadable),
    }
}

/// The state after handling one decoded symbol.
pub open spec fn symbol_next(m: RecvModel, x: Option<Seq<u8>>) -> RecvModel {
    match x {
        Some(raw) => if raw_complete(raw) {
            recv_next(m, header_of(raw).seq as int, raw_payload(raw))
        } else {
            m
        },
        None => m,
    }
}

/// The state after handling the decoded symbols `xs` in order.
pub open spec fn symbols_next(m: RecvModel, xs: Seq<Option<Seq<u8>>>) -> RecvModel
    decreases xs.len(),
{
    if xs.len() == 0 {
        m
    } else {
        symbol_next(symbols_next(m, xs.drop_last()), xs.last())
    }
}

/// The decoded symbols of `v` as byte sequences.
pub open spec fn symbol_views(v: Seq<Option<Vec<u8>>>) -> Seq<Option<Seq<u8>>> {
    v.map_values(
        |x: Option<Vec<u8>>|
            match x {
                Some(b) => Some(b@),
                None => None,
            },
    )
}

impl ReceiverSession {
    /// Handles the symbols decoded from one capture, in the order the decoder
    /// gave them, and gives what each of them amounted to.
    pub fn on_decoded(&mut self, symbols: &Vec<Option<Vec<u8>>>) -> (r: Vec<Result<Outcome, RecvError>>)
        requires
            old(self).wf(),
        ensures
            final(self).wf(),
            final(self)@ == symbols_next(old(self)@, symbol_views(symbols@)),
            r@.len() == symbols@.len(),
            forall|i: int|
                0 <= i < r@.len() ==> #[trigger] r@[i] == symbol_result(
                    symbols_next(old(self)@, symbol_views(symbols@).subrange(0, i)),
                    symbol_views(symbols@)[i],
                ),
    {
        let ghost m0 = self@;
        let ghost xs = symbol_views(symbols@);
        let mut out: Vec<Result<Outcome, RecvError>> = Vec::new();
        let mut i: usize = 0;
        assert(xs.subrange(0, 0) =~= Seq::<Option<Seq<u8>>>::empty());
        while i < symbols.len()
            invariant
                self.wf(),
                i <= symbols@.len(),
                xs == symbol_views(symbols@),
                self@ == symbols_next(m0, xs.subrange(0, i as int)),
                out@.len() == i,
                forall|j: int|
                    0 <= j < i ==> #[trigger] out@[j] == symbol_result(
                        symbols_next(m0, xs.subrange(0, j)),
                        xs[j],
                    ),
            decreases symbols@.len() - i,
        {
            let res = match &symbols[i] {
                Some(raw) => match split_frame(raw.as_slice()) {
                    Ok(frame) => self.on_frame(frame),
                    Err(_) => Ok(Outcome::Unreadable),
                },
                None => Ok(Outcome::Unreadable),
            };
            out.push(res);
            proof {
                assert(xs.subrange(0, i + 1).drop_last() =~= xs.subrange(0, i as int));
            }
            i = i + 1;
        }
        assert(xs.subrange(0, xs.len() as int) =~= xs);
        out
    }
}

/// File length and name, once set, stay as they are: a later metadata frame
/// changes neither; only a sequence gap, which clears the session, does.
pub proof fn lemma_metadata_write_once(m: RecvModel, seq: int, p: Seq<u8>)
    requires
        m.file_size is Some,
        recv_result(m, seq, p) is Ok,
    ensures
        recv_next(m, seq, p).file_size == m.file_size,
        recv_next(m, seq, p).file_name == m.file_name,
{
}

/// Cancelling twice leaves the session as cancelling once, with no capture
/// cycle pending.
pub proof fn lemma_receiver_cancel_idempotent(m: RecvModel)
    ensures
        recv_cancelled(recv_cancelled(m)) == recv_cancelled(m),
        !recv_cancelled(m).active,
{
}

} // verus!
