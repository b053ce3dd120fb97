use vstd::prelude::*;

verus! {

#[verifier::external_type_specification]
#[verifier::external_body]
pub struct ExEncodingError(png::EncodingError);

#[verifier::external_type_specification]
#[verifier::external_body]
pub struct ExDecodingError(png::DecodingError);

/// The PNG file that the `png` crate writes for an 8-bit RGBA image of the
/// given size whose pixel bytes are `rgba`, in row-major order.
pub uninterp spec fn png_rgba8_file(width: u32, height: u32, rgba: Seq<u8>) -> Seq<u8>;

/// What the `png` crate makes of the file `file`: its first frame, as a flat
/// buffer of samples in row-major order, or none where decoding fails.
pub uninterp spec fn png_first_frame(file: Seq<u8>) -> Option<Seq<u8>>;

/// Relies on png::Encoder (new, set_color, set_depth, write_header) and
/// png::Writer::write_image_data to write an 8-bit RGBA image into memory;
/// the file is complete once the writer is dropped. Writing into a `Vec`
/// cannot fail, so the encoder fails only on a zero side or on a buffer that
/// is not four bytes per pixel. Its decoder reads an 8-bit RGBA file back to
/// the same buffer, as long as a row fits its 64 MiB line buffer.
#[verifier::external_body]
pub(crate) fn write_rgba8(width: u32, height: u32, rgba: &[u8]) -> (r: Result<
    Vec<u8>,
    png::EncodingError,
>)
    ensures
        r matches Ok(file) ==> file@ == png_rgba8_file(width, height, rgba@),
        width >= 1 && height >= 1 && rgba@.len() == 4 * width * height ==> r is Ok,
        r matches Ok(file) ==> (rgba@.len() == 4 * width * height && 4 * width <= 0x400_0000
            ==> png_first_frame(file@) == Some(rgba@)),
{
    let mut file = Vec::new();
    {
        let mut encoder = png::Encoder::new(&mut file, width, height);
        encoder.set_color(png::ColorType::RGBA);
        encoder.set_depth(png::BitDepth::Eight);
        let mut writer = encoder.write_header()?;
        writer.write_image_data(rgba)?;
    }
    Ok(file)
}

/// Relies on png::Decoder::read_info, png::OutputInfo::buffer_size and
/// png::Reader::next_frame to decode the first frame of a PNG file held in
/// memory, into a buffer of the size the header announces. The outcome
/// depends on the file's bytes alone: limits and transformations are fixed.
#[verifier::external_body]
pub(crate) fn read_first_frame(file: &[u8]) -> (r: Result<Vec<u8>, png::DecodingError>)
    ensures
        r is Ok <==> png_first_frame(file@) is Some,
        r matches Ok(frame) ==> png_first_frame(file@) == Some(frame@),
{
    let decoder = png::Decoder::new(file);
    let (info, mut reader) = decoder.read_info()?;
    let mut frame = vec![0; info.buffer_size()];
    reader.next_frame(&mut frame)?;
    Ok(frame)
}

} // verus!
