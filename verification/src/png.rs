use vstd::prelude::*;
use vstd::string::*;
use crate::clipboard::{ClipboardItem, ItemView};
use crate::error::{AppError, clipboard_error, is_clipboard_error};
use crate::protocol::{MAX_PAYLOAD_BYTES, has_png_signature};

verus! {

/// What the `image` crate's PNG writer makes of an RGBA8 picture of `width`
/// by `height` pixels (rows top to bottom, four bytes per pixel): the PNG
/// file, or `None` when the writer refuses the picture.
pub uninterp spec fn png_encoding(width: u32, height: u32, rgba: Seq<u8>) -> Option<Seq<u8>>;

/// What the `image` crate decodes from `data`, converted to RGBA8: width,
/// height and pixels, or `None` when the bytes do not decode.
pub uninterp spec fn decoded_rgba(data: Seq<u8>) -> Option<(u32, u32, Seq<u8>)>;

/// Why writing a PNG failed.
pub enum PngWriteFailure {
    /// `ImageBuffer::from_raw` refused the buffer.
    NoImage,
    /// The encoder's own error, as its message.
    Encoding(String),
}

/// Builds an RGBA8 picture with `image::ImageBuffer::from_raw` and writes it
/// as PNG with `image::DynamicImage::write_to` into memory. Trusted: the
/// caller hands exactly `4 * width * height` bytes (the encoder asserts that
/// length), with `4 * width` and the whole count within `usize`, so
/// `from_raw` accepts the buffer, as its source shows. The outcome of the
/// writer is named, a function of the arguments alone; the contract adds
/// that a picture of zero width or height is refused, as the `png` crate's
/// `Writer::init` shows, and that a written file opens with the PNG
/// signature, which `Writer::encode_header` writes first into the empty
/// buffer; it does not say which other pictures are refused.
#[verifier::external_body]
fn write_rgba_png(width: u32, height: u32, rgba: Vec<u8>) -> (r: Result<Vec<u8>, PngWriteFailure>)
    requires
        rgba@.len() == 4 * width * height,
        4 * width <= usize::MAX,
        4 * width * height <= usize::MAX,
    ensures
        r is Ok <==> png_encoding(width, height, rgba@) is Some,
        r matches Ok(png) ==> png_encoding(width, height, rgba@) == Some(png@),
        r matches Ok(png) ==> has_png_signature(png@),
        !(r matches Err(PngWriteFailure::NoImage)),
        (width == 0 || height == 0) ==> r is Err,
{
    let image = match image::RgbaImage::from_raw(width, height, rgba) {
        Some(image) => image,
        None => return Err(PngWriteFailure::NoImage),
    };
    let mut output = std::io::Cursor::new(Vec::new());
    match image::DynamicImage::ImageRgba8(image).write_to(&mut output, image::ImageFormat::Png) {
        Ok(()) => Ok(output.into_inner()),
        Err(error) => Err(PngWriteFailure::Encoding(error.to_string())),
    }
}

/// Decodes an image with `image::load_from_memory` and converts it to RGBA8
/// with `DynamicImage::to_rgba8`, returning its width, height and pixels.
/// Trusted: the contract names the outcome, a function of the bytes alone
/// (decoded or refused); it does not say which inputs decode, nor what the
/// error says.
#[verifier::external_body]
fn read_rgba(data: &[u8]) -> (r: Result<(u32, u32, Vec<u8>), String>)
    ensures
        r is Ok <==> decoded_rgba(data@) is Some,
        r matches Ok((w, h, px)) ==> decoded_rgba(data@) == Some((w, h, px@)),
{
    match image::load_from_memory(data) {
        Ok(image) => {
            let rgba = image.to_rgba8();
            Ok((rgba.width(), rgba.height(), rgba.into_raw()))
        },
        Err(error) => Err(error.to_string()),
    }
}

/// The message of the check that refuses a picture before encoding, if any:
/// dimensions beyond PNG's, a byte count that overflows, a buffer of the
/// wrong length, or a row too long for the pixel buffer to be built.
pub open spec fn png_dimension_fault(width: usize, height: usize, len: nat) -> Option<Seq<char>> {
    if width > u32::MAX || height > u32::MAX {
        Some("image dimensions exceed PNG limits"@)
    } else if width * height > usize::MAX || width * height * 4 > usize::MAX {
        Some("image dimensions overflow"@)
    } else if width * height * 4 != len {
        Some("clipboard image has invalid dimensions"@)
    } else if 4 * width > usize::MAX {
        Some("could not construct RGBA image"@)
    } else {
        None
    }
}

/// `e` is a clipboard error whose message starts with `prefix`.
pub open spec fn is_clipboard_error_with_prefix(e: AppError, prefix: Seq<char>) -> bool {
    e matches AppError::Clipboard(m) && prefix.len() <= m@.len() && m@.subrange(0, prefix.len() as int) == prefix
}

fn prefixed_clipboard_error(prefix: &str, detail: String) -> (e: AppError)
    ensures
        is_clipboard_error_with_prefix(e, prefix@),
{
    let mut msg = String::from_str(prefix);
    msg.append(detail.as_str());
    proof {
        assert(msg@.subrange(0, prefix@.len() as int) =~= prefix@);
    }
    AppError::Clipboard(msg)
}

/// The outcome of encoding a picture: the message of the refusal, or the PNG file.
pub open spec fn png_outcome(width: usize, height: usize, rgba: Seq<u8>) -> Result<Seq<u8>, Option<Seq<char>>> {
    match png_dimension_fault(width, height, rgba.len()) {
        Some(msg) => Err(Some(msg)),
        None => match png_encoding(width as u32, height as u32, rgba) {
            Some(png) => Ok(png),
            None => Err(None),
        },
    }
}

/// `r` is what encoding gives: the PNG file, a refusal with the check's
/// message, or (when the writer refuses) an error that says so.
pub open spec fn matches_png_outcome(r: Result<Vec<u8>, AppError>, outcome: Result<Seq<u8>, Option<Seq<char>>>) -> bool {
    match outcome {
        Ok(png) => r matches Ok(p) && p@ == png,
        Err(Some(msg)) => r matches Err(e) && is_clipboard_error(e, msg),
        Err(None) => r matches Err(e) && is_clipboard_error_with_prefix(e, "PNG encoding failed: "@),
    }
}

/// Encodes an RGBA8 picture as PNG, after checking that the dimensions fit
/// PNG and match the buffer.
pub fn encode_png(width: usize, height: usize, rgba: &[u8]) -> (r: Result<Vec<u8>, AppError>)
    ensures
        matches_png_outcome(r, png_outcome(width, height, rgba@)),
        (width == 0 || height == 0) ==> r is Err,
        r matches Ok(png) ==> has_png_signature(png@),
{
    if width > 0xffff_ffffusize || height > 0xffff_ffffusize {
        return Err(clipboard_error("image dimensions exceed PNG limits"));
    }
    let expected = match width.checked_mul(height) {
        Some(pixels) => match pixels.checked_mul(4) {
            Some(bytes) => bytes,
            None => return Err(clipboard_error("image dimensions overflow")),
        },
        None => return Err(clipboard_error("image dimensions overflow")),
    };
    if expected != rgba.len() {
        return Err(clipboard_error("clipboard image has invalid dimensions"));
    }
    if width.checked_mul(4).is_none() {
        return Err(clipboard_error("could not construct RGBA image"));
    }
    proof {
        assert(4 * (width as u32) * (height as u32) == width * height * 4) by (nonlinear_arith)
            requires
                width <= u32::MAX,
                height <= u32::MAX,
        ;
    }
    match write_rgba_png(width as u32, height as u32, vstd::slice::slice_to_vec(rgba)) {
        Ok(png) => Ok(png),
        Err(PngWriteFailure::NoImage) => Err(clipboard_error("could not construct RGBA image")),
        Err(PngWriteFailure::Encoding(detail)) => Err(
            prefixed_clipboard_error("PNG encoding failed: ", detail),
        ),
    }
}

/// Decodes a PNG file into its width, height and RGBA8 pixels; bytes that do
/// not decode are refused.
pub fn decode_png(png: &[u8]) -> (r: Result<(usize, usize, Vec<u8>), AppError>)
    ensures
        r is Ok <==> decoded_rgba(png@) is Some,
        r matches Ok((w, h, px)) ==> w <= u32::MAX && h <= u32::MAX && decoded_rgba(png@) == Some((w as u32, h as u32, px@)),
        r matches Err(e) ==> is_clipboard_error_with_prefix(e, "invalid PNG: "@),
{
    match read_rgba(png) {
        Ok((w, h, pixels)) => Ok((w as usize, h as usize, pixels)),
        Err(detail) => Err(prefixed_clipboard_error("invalid PNG: ", detail)),
    }
}

/// What a read of the local clipboard found: a picture is taken first, as
/// PNG, and refused when the file is over the payload limit; otherwise
/// non-empty text; otherwise nothing.
pub fn snapshot_item(image: Option<(usize, usize, Vec<u8>)>, text: Option<String>) -> (r: Result<Option<ClipboardItem>, AppError>)
    ensures
        r matches Ok(Some(ClipboardItem::Png(png))) ==> has_png_signature(png@) && png@.len() <= MAX_PAYLOAD_BYTES,
        match image {
            Some((w, h, px)) => match png_outcome(w, h, px@) {
                Ok(png) => if png.len() > MAX_PAYLOAD_BYTES {
                    r matches Err(e) && is_clipboard_error(e, "image exceeds payload limit"@)
                } else {
                    r matches Ok(Some(i)) && i@ == ItemView::Png(png)
                },
                Err(Some(msg)) => r matches Err(e) && is_clipboard_error(e, msg),
                Err(None) => r matches Err(e) && is_clipboard_error_with_prefix(e, "PNG encoding failed: "@),
            },
            None => match text {
                Some(t) => if t@.len() > 0 {
                    r matches Ok(Some(i)) && i@ == ItemView::Text(t@)
                } else {
                    r matches Ok(None)
                },
                None => r matches Ok(None),
            },
        },
{
    match image {
        Some((width, height, pixels)) => {
            let png = match encode_png(width, height, pixels.as_slice()) {
                Ok(png) => png,
                Err(e) => return Err(e),
            };
            if png.len() > MAX_PAYLOAD_BYTES {
                return Err(clipboard_error("image exceeds payload limit"));
            }
            Ok(Some(ClipboardItem::Png(png)))
        },
        None => match text {
            Some(t) => {
                if t.as_str().is_empty() {
                    Ok(None)
                } else {
                    Ok(Some(ClipboardItem::Text(t)))
                }
            },
            None => Ok(None),
        },
    }
}


/// A picture whose dimensions fit PNG and whose buffer has the right length
/// is never refused before encoding, whatever its size against the payload
/// limit: the outcome is then the PNG writer's alone.
pub proof fn lemma_valid_picture_reaches_encoder(width: usize, height: usize, rgba: Seq<u8>)
    requires
        0 < width <= u32::MAX,
        0 < height <= u32::MAX,
        width * height * 4 <= usize::MAX,
        rgba.len() == width * height * 4,
    ensures
        png_dimension_fault(width, height, rgba.len()) is None,
        png_outcome(width, height, rgba) == match png_encoding(width as u32, height as u32, rgba) {
            Some(png) => Ok::<Seq<u8>, Option<Seq<char>>>(png),
            None => Err::<Seq<u8>, Option<Seq<char>>>(None),
        },
{
    assert(width * height <= width * height * 4) by (nonlinear_arith)
        requires
            width >= 0,
            height >= 0,
    ;
    assert(4 * width <= width * height * 4) by (nonlinear_arith)
        requires
            height >= 1,
            width >= 0,
    ;
}

} // verus!
