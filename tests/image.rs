use tk::sizing::{ceil_root_of, dimensions};
use tk::{decode, encode, rgba_rectangle, DecodeError, EncodeError};

#[test]
fn ceil_root_exact_values() {
    assert_eq!(ceil_root_of(0, 1), 0);
    assert_eq!(ceil_root_of(9, 1), 3);
    assert_eq!(ceil_root_of(10, 1), 4);
    assert_eq!(ceil_root_of(144, 9), 4);
    assert_eq!(ceil_root_of(145, 9), 5);
    assert_eq!(ceil_root_of(0xFFFF_FFFE_0000_0001, 1), 0xFFFF_FFFF);
}

#[test]
fn square_aspect_gives_square_sides() {
    for n in 1u32..200 {
        let (w, h) = dimensions(n, 1, 1).unwrap();
        let want = (n as f64).sqrt().ceil() as u32;
        assert_eq!((w, h), (want, want));
        let (w2, h2) = dimensions(n, 7, 7).unwrap();
        assert_eq!((w2, h2), (want, want));
    }
}

#[test]
fn wide_aspect_sides() {
    assert_eq!(dimensions(9, 16, 9), Some((4, 3)));
    assert_eq!(dimensions(1, 100, 1), Some((10, 1)));
}

#[test]
fn degenerate_dimensions() {
    assert_eq!(dimensions(0, 1, 1), None);
    assert_eq!(dimensions(5, 0, 1), None);
    assert_eq!(dimensions(5, 1, 0), None);
}

#[test]
fn hello_vector_fills_three_by_three() {
    let input = b"Hello there you little boy";
    let (w, h, buf) = rgba_rectangle(input, 1, 1).unwrap();
    assert_eq!((w, h), (3, 3));
    assert_eq!(buf.len(), 9 * 4);
    let markers: Vec<u8> = buf.chunks(4).map(|c| c[3]).collect();
    assert!(markers.iter().all(|&m| m != 0x00));
    assert!(markers[..8].iter().all(|&m| m == 0xFF));
    assert_eq!(markers[8], 0xFE);
    assert_eq!(tk::codec::unpack(&buf), input.to_vec());
}

#[test]
fn rectangle_pads_with_filler() {
    let (w, h, buf) = rgba_rectangle(&[1, 2, 3, 4, 5, 6, 7], 1, 1).unwrap();
    assert_eq!((w, h), (2, 2));
    assert_eq!(buf, vec![1, 2, 3, 0xFF, 4, 5, 6, 0xFF, 7, 0, 0, 0xFD, 0, 0, 0, 0]);
}

#[test]
fn empty_input_is_invalid_dimensions() {
    assert!(matches!(rgba_rectangle(&[], 1, 1), Err(EncodeError::InvalidDimensions)));
    assert!(matches!(encode(Vec::new(), 1, 1), Err(EncodeError::InvalidDimensions)));
}

#[test]
fn zero_and_infinite_aspect_rejected() {
    let bytes = b"some bytes".to_vec();
    assert!(matches!(encode(bytes.clone(), 0, 1), Err(EncodeError::InvalidDimensions)));
    assert!(matches!(encode(bytes.clone(), 1, 0), Err(EncodeError::InvalidDimensions)));
    assert!(matches!(encode(bytes, 0, 0), Err(EncodeError::InvalidDimensions)));
}

#[test]
fn encode_decode() {
    let input = b"Hello there you little boy";
    let enc = encode(input.to_vec(), 1, 1).unwrap();
    assert_eq!(&enc[..8], &[0x89, b'P', b'N', b'G', 0x0D, 0x0A, 0x1A, 0x0A]);
    let dec = decode(&enc).unwrap();
    assert_eq!(input.to_vec(), dec);
}

#[test]
fn round_trip_many_lengths_and_ratios() {
    for len in 1usize..40 {
        let bytes: Vec<u8> = (0..len).map(|i| (i * 91 + 7) as u8).collect();
        for (x, y) in [(1u32, 1u32), (16, 9), (9, 16), (3, 1), (1, 5)] {
            let enc = encode(bytes.clone(), x, y).unwrap();
            assert_eq!(decode(&enc).unwrap(), bytes);
        }
    }
}

#[test]
fn round_trip_keeps_zero_bytes() {
    let bytes = vec![0u8; 10];
    let enc = encode(bytes.clone(), 4, 3).unwrap();
    assert_eq!(decode(&enc).unwrap(), bytes);
}

#[test]
fn decode_rejects_malformed_file() {
    assert!(matches!(decode(b"not an image"), Err(DecodeError::Image(_))));
    assert!(matches!(decode(&[]), Err(DecodeError::Image(_))));
}

#[test]
fn decode_rejects_truncated_file() {
    let enc = encode(b"truncate me please".to_vec(), 1, 1).unwrap();
    assert!(matches!(decode(&enc[..enc.len() / 2]), Err(DecodeError::Image(_))));
}
