use tk::codec::{pack, pad, to_rgba, unpack};
use tk::pixel::push_payload;
use tk::Pixel;

fn px(r: u8, g: u8, b: u8, a: u8) -> Pixel {
    Pixel { r, g, b, a }
}

#[test]
fn empty_pixel_is_transparent_zero() {
    assert_eq!(Pixel::empty(), px(0, 0, 0, 0));
}

#[test]
fn from_buf_marks_chunk_length() {
    assert_eq!(Pixel::from_buf(&[7]), px(7, 0, 0, 0xFD));
    assert_eq!(Pixel::from_buf(&[7, 8]), px(7, 8, 0, 0xFE));
    assert_eq!(Pixel::from_buf(&[7, 8, 9]), px(7, 8, 9, 0xFF));
}

#[test]
fn from_buf_other_lengths_give_blank_full_pixel() {
    assert_eq!(Pixel::from_buf(&[]), px(0, 0, 0, 0xFF));
    assert_eq!(Pixel::from_buf(&[1, 2, 3, 4]), px(0, 0, 0, 0xFF));
}

#[test]
fn to_buf_gives_channels_in_order() {
    assert_eq!(px(1, 2, 3, 4).to_buf(), vec![1, 2, 3, 4]);
}

#[test]
fn pack_splits_into_chunks_of_three() {
    let ps = pack(&[1, 2, 3, 4, 5]);
    assert_eq!(ps, vec![px(1, 2, 3, 0xFF), px(4, 5, 0, 0xFE)]);
    let ps = pack(&[1, 2, 3, 4]);
    assert_eq!(ps, vec![px(1, 2, 3, 0xFF), px(4, 0, 0, 0xFD)]);
    assert!(pack(&[]).is_empty());
}

#[test]
fn pad_appends_filler_only() {
    let mut ps = pack(&[1, 2]);
    pad(&mut ps, 3);
    assert_eq!(ps, vec![px(1, 2, 0, 0xFE), Pixel::empty(), Pixel::empty()]);
    pad(&mut ps, 1);
    assert_eq!(ps.len(), 3);
}

#[test]
fn to_rgba_flattens_pixels() {
    let ps = vec![px(1, 2, 3, 0xFF), px(4, 0, 0, 0xFD)];
    assert_eq!(to_rgba(&ps), vec![1, 2, 3, 0xFF, 4, 0, 0, 0xFD]);
}

#[test]
fn unpack_follows_markers() {
    let flat = [1, 2, 3, 0xFF, 4, 5, 6, 0xFE, 7, 8, 9, 0xFD, 10, 11, 12, 0x00];
    assert_eq!(unpack(&flat), vec![1, 2, 3, 4, 5, 7]);
}

#[test]
fn filler_with_data_decodes_to_nothing() {
    assert_eq!(unpack(&[9, 9, 9, 0x00]), Vec::<u8>::new());
}

#[test]
fn foreign_marker_is_dropped_not_an_error() {
    assert_eq!(unpack(&[1, 2, 3, 0x80]), Vec::<u8>::new());
    assert_eq!(unpack(&[1, 2, 3, 0xFC, 4, 5, 6, 0xFF]), vec![4, 5, 6]);
}

#[test]
fn unpack_ignores_trailing_partial_group() {
    assert_eq!(unpack(&[1, 2, 3, 0xFF, 4, 5]), vec![1, 2, 3]);
}

#[test]
fn push_payload_appends() {
    let mut out = vec![42];
    push_payload(&mut out, 1, 2, 3, 0xFE);
    assert_eq!(out, vec![42, 1, 2]);
}

#[test]
fn partial_chunk_markers_and_recovery() {
    for len in [4usize, 5, 7, 8] {
        let bytes: Vec<u8> = (0..len).map(|i| (i * 37 + 1) as u8).collect();
        let ps = pack(&bytes);
        let last = *ps.last().unwrap();
        let want = if len % 3 == 1 { 0xFD } else { 0xFE };
        assert_eq!(last.a, want);
        assert_eq!(unpack(&to_rgba(&ps)), bytes);
    }
}
