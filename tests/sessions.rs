use qr_transfer::capacity::Redundancy;
use qr_transfer::frame::{build_frame, metadata_payload, Frame};
use qr_transfer::header::{parse_header, Header};
use qr_transfer::receiver::{Outcome, ReceiverSession, RecvError};
use qr_transfer::sender::{ConfigError, SendError, SenderSession};

fn data(seq: u32, payload: &[u8]) -> Frame {
    Frame { header: Header { seq, size: payload.len() as u16 }, payload: payload.to_vec() }
}

fn started() -> ReceiverSession {
    let mut r = ReceiverSession::new();
    r.start();
    r
}

#[test]
fn receiver_accepts_strictly_next() {
    let mut r = started();
    for seq in [1u32, 2, 2, 3, 3, 3, 4] {
        let res = r.on_frame(data(seq, &[seq as u8, 0xaa]));
        assert!(res.is_ok());
    }
    assert_eq!(r.chunks.len(), 4);
    assert_eq!(r.total_bytes, 8);
    for (i, c) in r.chunks.iter().enumerate() {
        assert_eq!(c, &vec![(i + 1) as u8, 0xaa]);
    }
    assert!(r.active);
}

#[test]
fn receiver_outcomes_for_duplicates() {
    let mut r = started();
    assert_eq!(r.on_frame(data(1, &[1])), Ok(Outcome::Accepted));
    assert_eq!(r.on_frame(data(1, &[1])), Ok(Outcome::Duplicate));
    assert_eq!(r.on_frame(data(2, &[2])), Ok(Outcome::Accepted));
}

#[test]
fn receiver_detects_gap() {
    let mut r = started();
    assert_eq!(r.on_frame(data(1, &[1, 1])), Ok(Outcome::Accepted));
    assert_eq!(r.on_frame(data(3, &[3, 3])), Err(RecvError::SequenceGap));
    assert!(r.chunks.is_empty());
    assert_eq!(r.total_bytes, 0);
    assert!(!r.active);
    assert!(!r.should_capture());
    assert_eq!(r.on_frame(data(2, &[2])), Ok(Outcome::Ignored));
    assert!(r.chunks.is_empty());
}

#[test]
fn receiver_completes() {
    let mut r = started();
    assert_eq!(r.on_frame(data(1, b"hello ")), Ok(Outcome::Accepted));
    assert_eq!(r.on_frame(data(2, b"world")), Ok(Outcome::Accepted));
    assert_eq!(r.on_frame(data(3, &[])), Ok(Outcome::Complete));
    assert!(!r.should_capture());
    assert_eq!(r.assemble(), b"hello world".to_vec());
}

#[test]
fn receiver_completes_on_repeated_terminal() {
    let mut r = started();
    assert_eq!(r.on_frame(data(1, b"ab")), Ok(Outcome::Accepted));
    assert_eq!(r.on_frame(data(1, &[])), Ok(Outcome::Complete));
    assert_eq!(r.assemble(), b"ab".to_vec());
}

#[test]
fn receiver_metadata_written_once() {
    let mut r = started();
    let first = metadata_payload(11, b"first.bin");
    let second = metadata_payload(22, b"second.bin");
    assert_eq!(r.on_frame(data(0, &[1, 2, 3])), Ok(Outcome::Ignored));
    assert_eq!(r.file_size, None);
    assert_eq!(r.on_frame(data(0, &first)), Ok(Outcome::Metadata));
    assert_eq!(r.on_frame(data(0, &second)), Ok(Outcome::Ignored));
    assert_eq!(r.file_size, Some(11));
    assert_eq!(r.file_name, Some(b"first.bin".to_vec()));
}

#[test]
fn receiver_ready_beacon() {
    let mut r = ReceiverSession::new();
    assert!(!r.ready);
    assert_eq!(r.on_frame(data(0, &[])), Ok(Outcome::Ready));
    assert!(r.ready);
    assert_eq!(r.on_frame(data(1, &[5])), Ok(Outcome::Ignored));
    assert!(r.chunks.is_empty());
}

#[test]
fn receiver_cancel_twice() {
    let mut r = started();
    r.on_frame(data(1, &[1])).unwrap();
    r.cancel();
    r.cancel();
    assert!(!r.should_capture());
    assert_eq!(r.chunks.len(), 1);
    assert_eq!(r.on_frame(data(2, &[2])), Ok(Outcome::Ignored));
}

#[test]
fn receiver_handles_raw_symbols() {
    let mut r = started();
    let f1 = build_frame(1, b"xy").unwrap();
    let f2 = build_frame(2, b"z").unwrap();
    let end = build_frame(3, &[]).unwrap();
    let symbols = vec![Some(f1.clone()), None, Some(vec![1, 0]), Some(f1), Some(f2), Some(end)];
    let out = r.on_decoded(&symbols);
    assert_eq!(
        out,
        vec![
            Ok(Outcome::Accepted),
            Ok(Outcome::Unreadable),
            Ok(Outcome::Unreadable),
            Ok(Outcome::Duplicate),
            Ok(Outcome::Accepted),
            Ok(Outcome::Complete),
        ]
    );
    assert_eq!(r.assemble(), b"xyz".to_vec());
}

fn run(d: u8, l: Redundancy, n: usize) -> Vec<Vec<u8>> {
    let source: Vec<u8> = (0..n).map(|i| (i * 7 + 3) as u8).collect();
    let mut s = SenderSession::new();
    s.set_density(d).unwrap();
    s.set_redundancy(l).unwrap();
    let frames = s.transmit(&source, b"f.dat").unwrap();
    assert!(!s.is_streaming());
    let mut joined = Vec::new();
    for (i, f) in frames.iter().enumerate() {
        assert!(f.len() <= s.block_size as usize);
        let h = parse_header(f);
        assert_eq!(h.seq as usize, i);
        assert_eq!(h.size as usize, f.len() - 4);
        if i > 0 && i + 1 < frames.len() {
            joined.extend_from_slice(&f[4..]);
        }
    }
    assert_eq!(frames.last().unwrap().len(), 4);
    assert_eq!(joined, source);
    let p = s.block_size as usize - 4;
    let k = frames.len() - 2;
    assert_eq!(k, (n + p - 1) / p);
    for i in 1..=k {
        let size = frames[i].len() - 4;
        if i < k {
            assert_eq!(size, p);
        } else {
            assert_eq!(size, n - p * (k - 1));
            assert!(size >= 1 && size <= p);
        }
    }
    frames
}

#[test]
fn sender_chunking_covers_source() {
    // density 2, level L: 32-byte symbols, 28 payload bytes per frame
    let p = 28;
    for n in [0, 1, p - 1, p, p + 1, 2 * p, 5 * p, 5 * p + 4] {
        let frames = run(2, Redundancy::L, n);
        assert_eq!(frames.len(), 2 + (n + p - 1) / p);
    }
    let frames = run(40, Redundancy::L, 10000);
    assert_eq!(frames.len(), 2 + 4);
    // sources just around, and at multiples of, the block size itself
    let bs = 32;
    for n in [bs - 1, bs, bs + 1, 2 * bs, 3 * bs, 10 * bs] {
        run(2, Redundancy::L, n);
    }
}

#[test]
fn sender_to_receiver() {
    let source: Vec<u8> = (0..100u32).map(|i| (i * 13) as u8).collect();
    let mut s = SenderSession::new();
    s.set_density(2).unwrap();
    let frames = s.transmit(&source, b"name").unwrap();
    let mut r = ReceiverSession::new();
    r.start();
    let mut symbols = Vec::new();
    for f in &frames {
        symbols.push(Some(f.clone()));
        symbols.push(Some(f.clone()));
    }
    let out = r.on_decoded(&symbols);
    assert_eq!(out[0], Ok(Outcome::Metadata));
    assert_eq!(out[out.len() - 2], Ok(Outcome::Complete));
    assert_eq!(out[out.len() - 1], Ok(Outcome::Ignored));
    assert_eq!(r.file_size, Some(100));
    assert_eq!(r.file_name, Some(b"name".to_vec()));
    assert_eq!(r.assemble(), source);
}

#[test]
fn sender_steps() {
    let mut s = SenderSession::new();
    s.set_density(1).unwrap();
    let meta = s.start(30, b"a").unwrap();
    assert_eq!(meta, build_frame(0, &metadata_payload(30, b"a")).unwrap());
    assert!(s.is_streaming());
    assert_eq!(s.next_read(), (0, 13));
    let f = s.on_chunk(&[1; 13]);
    assert_eq!(parse_header(&f), Header { seq: 1, size: 13 });
    assert_eq!(s.next_read(), (13, 13));
    s.on_chunk(&[2; 13]);
    assert_eq!(s.next_read(), (26, 4));
    s.on_chunk(&[3; 4]);
    assert_eq!(s.next_read(), (30, 0));
    let end = s.on_chunk(&[]);
    assert_eq!(end, build_frame(4, &[]).unwrap());
    assert!(!s.is_streaming());
}

#[test]
fn sender_start_errors() {
    let mut s = SenderSession::new();
    assert_eq!(s.start(10, b"a\0b"), Err(SendError::InvalidName));
    s.set_density(1).unwrap();
    s.set_redundancy(Redundancy::H).unwrap();
    assert_eq!(s.start(10, b""), Err(SendError::ExceedsCapacity));
    s.set_redundancy(Redundancy::L).unwrap();
    assert_eq!(s.start(13 * ((1 << 20) - 1), b"x"), Err(SendError::InvalidHeaderField));
    assert!(s.start(13 * ((1 << 20) - 2), b"x").is_ok());
    assert_eq!(s.start(1, b"x"), Err(SendError::Busy));
}

#[test]
fn sender_config_locked_while_streaming() {
    let mut s = SenderSession::new();
    assert_eq!(s.block_size, 2951);
    assert_eq!(s.interval_millis, 500);
    assert_eq!(s.density, 40);
    assert_eq!(s.cell_pixels, 5);
    assert_eq!((s.offset, s.source_len, s.next_seq), (0, 0, 0));
    assert!(!s.is_streaming());
    assert_eq!(s.set_density(0), Err(ConfigError::OutOfRange));
    assert_eq!(s.set_interval(0), Err(ConfigError::OutOfRange));
    assert_eq!(s.set_cell_pixels(0), Err(ConfigError::OutOfRange));
    assert_eq!(s.set_interval(250), Ok(()));
    assert_eq!(s.set_cell_pixels(8), Ok(()));
    assert_eq!(s.set_redundancy(Redundancy::M), Ok(()));
    assert_eq!(s.block_size, 2329);
    s.start(5, b"x").unwrap();
    assert_eq!(s.set_density(3), Err(ConfigError::Busy));
    assert_eq!(s.set_redundancy(Redundancy::H), Err(ConfigError::Busy));
    assert_eq!(s.set_interval(10), Err(ConfigError::Busy));
    assert_eq!(s.set_cell_pixels(3), Err(ConfigError::Busy));
    assert_eq!(s.block_size, 2329);
}

#[test]
fn sender_cancel_twice() {
    let mut s = SenderSession::new();
    s.start(100, b"x").unwrap();
    s.cancel();
    let once = s;
    s.cancel();
    assert_eq!(s, once);
    assert!(!s.is_streaming());
    assert_eq!(s.set_density(5), Ok(()));
}
