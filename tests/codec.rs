use qr_transfer::capacity::{compute_block_size, to_ec_level, Redundancy};
use qr_transfer::frame::{build_frame, metadata_payload, parse_metadata, split_frame, FrameError, MetadataError};
use qr_transfer::header::{build_header, parse_header, Header, HeaderError};

#[test]
fn header_known_bytes() {
    let mut out = [0u8; 4];
    assert_eq!(build_header(Header { seq: 1, size: 5 }, &mut out), Ok(()));
    assert_eq!(out, [5, 16, 0, 0]);
    let h = parse_header(&[0xff, 0xff, 0xff, 0xff]);
    assert_eq!(h, Header { seq: 0xf_ffff, size: 0xfff });
}

#[test]
fn header_round_trip_values() {
    for &(seq, size) in &[(0u32, 0u16), (1, 1), (0xf_ffff, 0xfff), (12345, 2951), (1 << 19, 7)] {
        let mut out = vec![9u8; 6];
        assert_eq!(build_header(Header { seq, size }, &mut out), Ok(()));
        assert_eq!(&out[4..], &[9, 9]);
        assert_eq!(parse_header(&out), Header { seq, size });
    }
}

#[test]
fn header_rejects_wide_fields() {
    let mut out = [7u8; 4];
    assert_eq!(build_header(Header { seq: 1 << 20, size: 0 }, &mut out), Err(HeaderError::InvalidHeaderField));
    assert_eq!(build_header(Header { seq: 0, size: 4096 }, &mut out), Err(HeaderError::InvalidHeaderField));
    assert_eq!(out, [7, 7, 7, 7]);
}

#[test]
fn capacity_table_values() {
    assert_eq!(compute_block_size(1, Redundancy::L), Some(17));
    assert_eq!(compute_block_size(1, Redundancy::H), Some(7));
    assert_eq!(compute_block_size(10, Redundancy::Q), Some(151));
    assert_eq!(compute_block_size(40, Redundancy::L), Some(2951));
    assert_eq!(compute_block_size(40, Redundancy::H), Some(1271));
    assert_eq!(compute_block_size(0, Redundancy::L), None);
    assert_eq!(compute_block_size(41, Redundancy::M), None);
}

#[test]
fn capacity_is_monotone() {
    let levels = [Redundancy::L, Redundancy::M, Redundancy::Q, Redundancy::H];
    for d in 1u8..=40 {
        for w in 0..3 {
            assert!(compute_block_size(d, levels[w]).unwrap() >= compute_block_size(d, levels[w + 1]).unwrap());
        }
        if d < 40 {
            for l in levels {
                assert!(compute_block_size(d, l).unwrap() <= compute_block_size(d + 1, l).unwrap());
            }
        }
    }
}

#[test]
fn redundancy_from_index() {
    assert_eq!(to_ec_level(0), Some(Redundancy::L));
    assert_eq!(to_ec_level(3), Some(Redundancy::H));
    assert_eq!(to_ec_level(4), None);
}

#[test]
fn frame_build_and_split() {
    let f = build_frame(3, &[10, 20, 30]).unwrap();
    assert_eq!(f, vec![3, 0x30, 0, 0, 10, 20, 30]);
    let mut padded = f.clone();
    padded.extend_from_slice(&[0, 0]);
    let g = split_frame(&padded).unwrap();
    assert_eq!(g.header, Header { seq: 3, size: 3 });
    assert_eq!(g.payload, vec![10, 20, 30]);
    assert!(matches!(split_frame(&f[..5]), Err(FrameError::Truncated)));
    assert!(matches!(split_frame(&[1, 2]), Err(FrameError::Truncated)));
    assert_eq!(build_frame(1 << 20, &[]), Err(HeaderError::InvalidHeaderField));
    assert_eq!(build_frame(1, &vec![0u8; 4096]), Err(HeaderError::InvalidHeaderField));
}

#[test]
fn metadata_round_trip() {
    let p = metadata_payload(0x0102_0304_0506, b"a.txt");
    assert_eq!(p, vec![6, 5, 4, 3, 2, 1, 0, 0, b'a', b'.', b't', b'x', b't', 0]);
    let (n, name) = parse_metadata(&p).unwrap();
    assert_eq!(n, 0x0102_0304_0506);
    assert_eq!(name, b"a.txt".to_vec());
    let (m, rest) = parse_metadata(&[255, 255, 255, 255, 255, 255, 255, 255, b'x', 0, b'y', 0]).unwrap();
    assert_eq!(m, u64::MAX);
    assert_eq!(rest, b"x".to_vec());
}

#[test]
fn metadata_malformed() {
    assert_eq!(parse_metadata(&[1, 2, 3]).err(), Some(MetadataError::Malformed));
    assert_eq!(parse_metadata(&[1, 0, 0, 0, 0, 0, 0, 0, b'a', b'b']).err(), Some(MetadataError::Malformed));
    assert_eq!(parse_metadata(&[0; 8]).err(), Some(MetadataError::Malformed));
}
