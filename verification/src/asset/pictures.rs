//! Image files: what their bytes hold.

use vstd::prelude::*;
use vstd::string::*;

use crate::asset;
use crate::asset::colors;
use crate::asset::colors::{extract_colors, Palette};
use crate::asset::image_dimensions;
use crate::text;

verus! {

/// What `image` reads from the front of a file, whose format the path names: the width and height of
/// the image, or why there are none.
pub uninterp spec fn header_dimensions(path: Seq<char>, bytes: Seq<u8>) -> Result<
    (u32, u32),
    Seq<char>,
>;

/// What `image` decodes a file to, whose format the path names: the width, the height and three bytes
/// for each pixel, or why it is no image.
pub uninterp spec fn decoded_image(path: Seq<char>, bytes: Seq<u8>) -> Result<
    (u32, u32, Seq<u8>),
    Seq<char>,
>;

/// The size that a header gives, where it gives one.
pub open spec fn header_given(path: Seq<char>, bytes: Seq<u8>) -> Option<(u32, u32)> {
    match header_dimensions(path, bytes) {
        Ok(size) => Some(size),
        Err(_) => None,
    }
}

/// The path may name a JPEG file.
pub open spec fn may_be_jpeg(path: Seq<char>) -> bool {
    let s = text::ascii_lower(path);
    text::occurs(s, ".jpg"@) || text::occurs(s, ".jpeg"@) || text::occurs(s, ".jfif"@)
}

/// What a decoder gives, by its views.
pub open spec fn decoded_view(r: Result<(u32, u32, Vec<u8>), String>) -> Result<
    (u32, u32, Seq<u8>),
    Seq<char>,
> {
    match r {
        Ok(d) => Ok((d.0, d.1, d.2@)),
        Err(e) => Err(e@),
    }
}

/// Calls `ImageReader::into_dimensions` of `image` on the bytes, in the format that
/// `ImageFormat::from_path` takes from the extension. What comes back follows from the path and the
/// bytes alone.
#[verifier::external_body]
fn header_size(path: &str, bytes: &Vec<u8>) -> (r: Result<(u32, u32), String>)
    ensures
        match r {
            Ok(size) => header_dimensions(path@, bytes@) == Ok::<(u32, u32), Seq<char>>(size),
            Err(e) => header_dimensions(path@, bytes@) == Err::<(u32, u32), Seq<char>>(e@),
        },
{
    let format = image::ImageFormat::from_path(path).map_err(|e| e.to_string())?;
    let reader = image::ImageReader::with_format(std::io::Cursor::new(bytes), format);
    reader.into_dimensions().map_err(|e| e.to_string())
}

/// Calls `ImageReader::decode` of `image` on the bytes, in the format that `ImageFormat::from_path`
/// takes from the extension, and `DynamicImage::to_rgb8` on the image. An image that is decoded has
/// the size that its header gives, and three bytes for each pixel. What comes back follows from the
/// path and the bytes alone, but for JPEG: its decoder has a variant for each kind of processor, and
/// that they agree on every file is left unsaid.
#[verifier::external_body]
fn decode_image(path: &str, bytes: &Vec<u8>) -> (r: Result<(u32, u32, Vec<u8>), String>)
    ensures
        !may_be_jpeg(path@) ==> decoded_view(r) == decoded_image(path@, bytes@),
        r matches Ok(d) ==> header_given(path@, bytes@) == Some((d.0, d.1)) && d.2@.len() == 3 * d.0
            * d.1,
{
    let format = image::ImageFormat::from_path(path).map_err(|e| e.to_string())?;
    let reader = image::ImageReader::with_format(std::io::Cursor::new(bytes), format);
    let pixels = reader.decode().map_err(|e| e.to_string())?.to_rgb8();
    Ok((pixels.width(), pixels.height(), pixels.into_raw()))
}

// ---------------------------------------------------------------------------
// Sizes
// ---------------------------------------------------------------------------

/// The size of an image that is taken: none where the file is no image or the image is too large.
pub fn image_dimensions_of(path: &str, bytes: &Vec<u8>) -> (r: (u32, u32))
    ensures
        r == asset::accepted_size(header_given(path@, bytes@)),
{
    match header_size(path, bytes) {
        Ok(size) => image_dimensions(Some(size)),
        Err(_) => image_dimensions(None),
    }
}

// ---------------------------------------------------------------------------
// Colors
// ---------------------------------------------------------------------------

/// What is said of a file that is no image.
pub open spec fn decode_failure(reason: Seq<char>) -> Seq<char> {
    "图片解码失败: "@ + reason
}

/// The main colors of a decoded image, or what is said where there is none.
pub open spec fn are_colors_of(
    r: Result<Palette, String>,
    decoded: Result<(u32, u32, Seq<u8>), Seq<char>>,
) -> bool {
    match (decoded, r) {
        (Ok(d), Ok(p)) => colors::is_palette_of(p, d.2, d.0, d.1),
        (Err(reason), Err(m)) => m@ == decode_failure(reason),
        _ => false,
    }
}

/// The main colors of what a decoder gave, or what is said where it gave nothing.
pub fn colors_of_decoded(decoded: Result<(u32, u32, Vec<u8>), String>) -> (r: Result<
    Palette,
    String,
>)
    ensures
        are_colors_of(r, decoded_view(decoded)),
{
    match decoded {
        Ok(d) => Ok(extract_colors(&d.2, d.0, d.1)),
        Err(reason) => Err("图片解码失败: ".to_owned().concat(reason.as_str())),
    }
}

/// The main colors of the image in a file, whose format the path names. They are those of an image
/// of the size that the header gives; of which pixels, follows from the file, but for JPEG.
pub fn extract_colors_of(path: &str, bytes: &Vec<u8>) -> (r: Result<Palette, String>)
    ensures
        !may_be_jpeg(path@) ==> are_colors_of(r, decoded_image(path@, bytes@)),
        header_given(path@, bytes@) is None ==> r is Err,
        r matches Ok(p) ==> exists|w: u32, h: u32, pixels: Seq<u8>|
            header_given(path@, bytes@) == Some((w, h)) && pixels.len() == 3 * w * h && #[trigger] colors::is_palette_of(p, pixels, w, h),
        r matches Err(m) ==> exists|reason: Seq<char>| m@ == #[trigger] decode_failure(reason),
{
    let decoded = decode_image(path, bytes);
    let ghost d = decoded_view(decoded);
    let r = colors_of_decoded(decoded);
    proof {
        match d {
            Ok(v) => {
                assert(colors::is_palette_of(r->Ok_0, v.2, v.0, v.1));
            },
            Err(reason) => {
                assert(r->Err_0@ == decode_failure(reason));
            },
        }
    }
    r
}

} // verus!
