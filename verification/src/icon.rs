//! The icon of the window.
use vstd::prelude::*;

verus! {

/// A picture of `width` times `height` points, four bytes each: red, green, blue
/// and opacity, row by row.
#[derive(Debug)]
pub struct Icon {
    pub rgba: Vec<u8>,
    pub width: u32,
    pub height: u32,
}

/// `image::ImageFormat`, a format of picture files.
#[verifier::external_type_specification]
#[verifier::external_body]
pub struct ExImageFormat(image::ImageFormat);

/// `image::DynamicImage`, a picture that was read from a file.
#[verifier::external_type_specification]
#[verifier::external_body]
pub struct ExDynamicImage(image::DynamicImage);

/// The format that `image::guess_format` finds for the bytes of a file; `None` where it
/// knows none.
pub uninterp spec fn guessed(bytes: Seq<u8>) -> Option<image::ImageFormat>;

/// The picture that `image::load_from_memory_with_format` reads from the bytes of a file
/// of the format; `None` where it reads none.
pub uninterp spec fn loaded(bytes: Seq<u8>, format: image::ImageFormat) -> Option<
    image::DynamicImage,
>;

/// The points of the picture as `image::DynamicImage::into_rgba8` gives them, with the
/// width and the height.
pub uninterp spec fn points(picture: image::DynamicImage) -> (Seq<u8>, u32, u32);

/// `image::guess_format`: a look at the first bytes, against a table of signatures. The
/// result depends on the bytes alone.
#[verifier::external_body]
fn guess_format(bytes: &[u8]) -> (r: Option<image::ImageFormat>)
    ensures
        r == guessed(bytes@),
{
    image::guess_format(bytes).ok()
}

/// `image::load_from_memory_with_format`: the decoder that comes with the crate for the
/// format, with the crate's limits. The result depends on the bytes and the format
/// alone; decoders that a program registers of its own have no part in it.
#[verifier::external_body]
fn load_from_memory_with_format(bytes: &[u8], format: image::ImageFormat) -> (r: Option<
    image::DynamicImage,
>)
    ensures
        r == loaded(bytes@, format),
{
    image::load_from_memory_with_format(bytes, format).ok()
}

/// `image::DynamicImage::into_rgba8`: the points in a buffer that holds four bytes for
/// each of them. Of a buffer that the picture brings along in this form it is only known
/// that it is large enough.
#[verifier::external_body]
fn into_rgba8(picture: image::DynamicImage) -> (r: Icon)
    ensures
        (r.rgba@, r.width, r.height) == points(picture),
        r.rgba@.len() >= 4 * r.width * r.height,
{
    let buffer = picture.into_rgba8();
    let (width, height) = buffer.dimensions();
    Icon { rgba: buffer.into_raw(), width, height }
}

/// The picture that the bytes of a file hold: read in the format that they show.
pub open spec fn picture_in(bytes: Seq<u8>) -> Option<image::DynamicImage> {
    match guessed(bytes) {
        Some(format) => loaded(bytes, format),
        None => None,
    }
}

/// The icon of the window, from the file that holds it. Without that file, or with
/// one that is no picture, the window has none of its own.
pub fn window_icon(file: Option<&[u8]>) -> (r: Option<Icon>)
    ensures
        match r {
            Some(icon) => file matches Some(bytes) && picture_in(bytes@) matches Some(picture) && (
                icon.rgba@,
                icon.width,
                icon.height,
            ) == points(picture) && icon.rgba@.len() >= 4 * icon.width * icon.height,
            None => file matches Some(bytes) ==> picture_in(bytes@) is None,
        },
{
    let bytes = match file {
        Some(bytes) => bytes,
        None => return None,
    };
    let format = match guess_format(bytes) {
        Some(format) => format,
        None => return None,
    };
    match load_from_memory_with_format(bytes, format) {
        Some(picture) => Some(into_rgba8(picture)),
        None => None,
    }
}

/// The picture is read in the format that the bytes show, and there is none where they
/// show none.
pub proof fn pictures_are_read_in_the_format_they_show(bytes: Seq<u8>, format: image::ImageFormat)
    ensures
        guessed(bytes) == Some(format) ==> picture_in(bytes) == loaded(bytes, format),
        guessed(bytes) is None ==> picture_in(bytes) is None,
{
}

} // verus!
