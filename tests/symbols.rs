use qr_transfer::capacity::Redundancy;
use qr_transfer::frame::build_frame;
use qr_transfer::receiver::{Outcome, ReceiverSession};
use qr_transfer::symbol::{dark_modules, encode_frame, EncodeError};

#[test]
fn dark_module_positions() {
    let cells = vec![true, false, false, true, true, false, false, false, true];
    assert_eq!(dark_modules(3, &cells), vec![(0, 0), (0, 1), (1, 1), (2, 2)]);
    assert_eq!(dark_modules(2, &vec![false; 4]), vec![]);
}

#[test]
fn encode_at_configured_density() {
    let frame = build_frame(1, b"hello").unwrap();
    let s = encode_frame(&frame, 1, Redundancy::L).unwrap();
    assert_eq!(s.width, 21);
    assert!(!s.dark.is_empty());
    assert!(s.dark.contains(&(0, 0)));
    let s5 = encode_frame(&frame, 5, Redundancy::H).unwrap();
    assert_eq!(s5.width, 37);
    // 18 bytes exceed the 17 a density-1, level-L symbol carries
    let long = build_frame(1, &[0xff; 14]).unwrap();
    assert!(matches!(encode_frame(&long, 1, Redundancy::L), Err(EncodeError::TooLarge)));
    assert!(encode_frame(&long, 2, Redundancy::L).is_ok());
    let big = vec![0xffu8; 3000];
    assert!(matches!(encode_frame(&big, 40, Redundancy::L), Err(EncodeError::TooLarge)));
}

fn render(frame: &[u8], scale: usize) -> (Vec<u8>, usize) {
    let s = encode_frame(frame, 2, Redundancy::M).unwrap();
    let quiet = 4;
    let side = (s.width + 2 * quiet) * scale;
    let mut image = vec![255u8; side * side];
    for &(x, y) in &s.dark {
        for dy in 0..scale {
            for dx in 0..scale {
                let px = (x + quiet) * scale + dx;
                let py = (y + quiet) * scale + dy;
                image[py * side + px] = 0;
            }
        }
    }
    (image, side)
}

#[test]
fn capture_decodes_rendered_frame() {
    let mut r = ReceiverSession::new();
    r.start();
    let (image, side) = render(&build_frame(1, b"optical").unwrap(), 4);
    let out = r.on_capture(&image, side, side);
    assert_eq!(out, vec![Ok(Outcome::Accepted)]);
    let (image, side) = render(&build_frame(2, &[]).unwrap(), 4);
    assert_eq!(r.on_capture(&image, side, side), vec![Ok(Outcome::Complete)]);
    assert_eq!(r.assemble(), b"optical".to_vec());
}

#[test]
fn capture_of_blank_image() {
    let mut r = ReceiverSession::new();
    r.start();
    let image = vec![255u8; 64 * 48];
    assert!(r.on_capture(&image, 64, 48).is_empty());
    assert!(r.chunks.is_empty());
}
