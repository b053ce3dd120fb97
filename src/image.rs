use vstd::prelude::*;

use crate::codec::{
    lemma_round_trip, pack, pack_spec, pad, padded, pixel_count, rgba_of, to_rgba, unpack,
    unpack_spec,
};
use crate::container::{png_first_frame, png_rgba8_file, read_first_frame, write_rgba8};
use crate::sizing::{dimensions, lemma_size_for_covers, size_for, u32_max};

verus! {

/// Why a byte stream could not be turned into an image.
#[derive(Debug)]
pub enum EncodeError {
    /// A side of the image would be zero: the input is empty, or a side of
    /// the aspect ratio is zero.
    InvalidDimensions,
    /// The input needs more pixels than a side of an image can count.
    TooLarge,
    /// The PNG encoder failed.
    Image(png::EncodingError),
}

/// Why a byte stream could not be recovered from an image.
#[derive(Debug)]
pub enum DecodeError {
    /// The PNG decoder failed: the file is malformed or truncated.
    Image(png::DecodingError),
}

/// The image that carries `b` at aspect ratio `x : y`: its width, its height
/// and its flat RGBA buffer, the pixels that carry `b` followed by filler up
/// to `width * height` pixels. There is none where `size_for` gives no size.
pub open spec fn rectangle_spec(b: Seq<u8>, x: nat, y: nat) -> Option<(nat, nat, Seq<u8>)> {
    match size_for(pixel_count(b.len()), x, y) {
        None => None,
        Some((w, h)) => Some((w, h, rgba_of(padded(pack_spec(b), w * h)))),
    }
}

/// Lays `bytes` out as an RGBA image at aspect ratio `x : y` and returns its
/// width, height and flat pixel buffer.
pub fn rgba_rectangle(bytes: &[u8], x: u32, y: u32) -> (r: Result<(u32, u32, Vec<u8>), EncodeError>)
    ensures
        (r matches Err(EncodeError::InvalidDimensions)) <==> size_for(
            pixel_count(bytes@.len()),
            x as nat,
            y as nat,
        ) is None,
        (r matches Err(EncodeError::TooLarge)) <==> (size_for(
            pixel_count(bytes@.len()),
            x as nat,
            y as nat,
        ) is Some && pixel_count(bytes@.len()) > u32_max()),
        r is Ok || r matches Err(EncodeError::InvalidDimensions) || r matches Err(
            EncodeError::TooLarge,
        ),
        r matches Ok((w, h, buf)) ==> rectangle_spec(bytes@, x as nat, y as nat) == Some(
            (w as nat, h as nat, buf@),
        ),
{
    let mut pixels = pack(bytes);
    if pixels.len() > 0xFFFF_FFFF {
        if x == 0 || y == 0 {
            return Err(EncodeError::InvalidDimensions);
        }
        return Err(EncodeError::TooLarge);
    }
    let (w, h) = match dimensions(pixels.len() as u32, x, y) {
        None => return Err(EncodeError::InvalidDimensions),
        Some(d) => d,
    };
    proof {
        assert(w * h <= u32_max() * u32_max()) by (nonlinear_arith)
            requires
                w <= u32_max(),
                h <= u32_max(),
        ;
    }
    pad(&mut pixels, w as u64 * h as u64);
    let buf = to_rgba(pixels.as_slice());
    Ok((w, h, buf))
}

/// Encodes `bytes` as a PNG image at aspect ratio `x : y`.
pub fn encode(bytes: Vec<u8>, x: u32, y: u32) -> (r: Result<Vec<u8>, EncodeError>)
    ensures
        (r matches Err(EncodeError::InvalidDimensions)) <==> size_for(
            pixel_count(bytes@.len()),
            x as nat,
            y as nat,
        ) is None,
        (r matches Err(EncodeError::TooLarge)) <==> (size_for(
            pixel_count(bytes@.len()),
            x as nat,
            y as nat,
        ) is Some && pixel_count(bytes@.len()) > u32_max()),
        (size_for(pixel_count(bytes@.len()), x as nat, y as nat) is Some && pixel_count(
            bytes@.len(),
        ) <= u32_max()) ==> r is Ok,
        r matches Ok(file) ==> (rectangle_spec(bytes@, x as nat, y as nat) matches Some(
            (w, h, buf),
        ) && file@ == png_rgba8_file(w as u32, h as u32, buf)),
        r matches Ok(file) ==> (rectangle_spec(bytes@, x as nat, y as nat) matches Some(
            (w, h, buf),
        ) && (w <= 0x100_0000 ==> (png_first_frame(file@) matches Some(frame) && unpack_spec(
            frame,
        ) == bytes@))),
{
    let (w, h, buf) = match rgba_rectangle(bytes.as_slice(), x, y) {
        Err(e) => return Err(e),
        Ok(rect) => rect,
    };
    proof {
        lemma_rectangle_round_trip(bytes@, x as nat, y as nat);
        lemma_size_for_covers(pixel_count(bytes@.len()), x as nat, y as nat);
        assert(4 * (w as int * h as int) == 4 * w as int * h as int) by (nonlinear_arith);
    }
    match write_rgba8(w, h, buf.as_slice()) {
        Ok(file) => Ok(file),
        Err(e) => Err(EncodeError::Image(e)),
    }
}

/// Decodes a PNG image written by `encode` back into the bytes it carries.
/// It fails exactly where the PNG decoder fails, and passes its error on.
pub fn decode(file: &[u8]) -> (r: Result<Vec<u8>, DecodeError>)
    ensures
        r is Ok <==> png_first_frame(file@) is Some,
        r matches Ok(bytes) ==> (png_first_frame(file@) matches Some(frame) && bytes@
            == unpack_spec(frame)),
{
    match read_first_frame(file) {
        Ok(frame) => Ok(unpack(frame.as_slice())),
        Err(e) => Err(DecodeError::Image(e)),
    }
}

/// The image laid out for `b` is a full rectangle whose pixel buffer unpacks
/// to exactly `b`.
pub proof fn lemma_rectangle_round_trip(b: Seq<u8>, x: nat, y: nat)
    ensures
        rectangle_spec(b, x, y) matches Some((w, h, buf)) ==> buf.len() == 4 * (w * h)
            && unpack_spec(buf) == b,
{
    if let Some((w, h)) = size_for(pixel_count(b.len()), x, y) {
        lemma_round_trip(b, w * h);
        lemma_size_for_covers(pixel_count(b.len()), x, y);
    }
}

} // verus!
