//! MIME types of the image formats the asset protocol serves.

use vstd::prelude::*;
use vstd::utf8::is_ascii_chars;
use crate::text::{ascii_lowercase, str_eq, to_lowercase, unicode_lowercase};

verus! {

/// The MIME type of a lowercase file extension, if it is an allowed image.
pub open spec fn image_mime(ext: Seq<char>) -> Option<&'static str> {
    if ext == "png"@ {
        Some("image/png")
    } else if ext == "jpg"@ || ext == "jpeg"@ {
        Some("image/jpeg")
    } else if ext == "gif"@ {
        Some("image/gif")
    } else if ext == "webp"@ {
        Some("image/webp")
    } else if ext == "svg"@ {
        Some("image/svg+xml")
    } else if ext == "bmp"@ {
        Some("image/bmp")
    } else if ext == "ico"@ {
        Some("image/x-icon")
    } else if ext == "avif"@ {
        Some("image/avif")
    } else {
        None
    }
}

/// Looks up an extension that is already lowercase.
pub fn image_mime_of_lowercase(ext: &str) -> (r: Option<&'static str>)
    ensures
        r == image_mime(ext@),
{
    if str_eq(ext, "png") {
        Some("image/png")
    } else if str_eq(ext, "jpg") || str_eq(ext, "jpeg") {
        Some("image/jpeg")
    } else if str_eq(ext, "gif") {
        Some("image/gif")
    } else if str_eq(ext, "webp") {
        Some("image/webp")
    } else if str_eq(ext, "svg") {
        Some("image/svg+xml")
    } else if str_eq(ext, "bmp") {
        Some("image/bmp")
    } else if str_eq(ext, "ico") {
        Some("image/x-icon")
    } else if str_eq(ext, "avif") {
        Some("image/avif")
    } else {
        None
    }
}

/// The image MIME type of a file extension, compared without regard to
/// case (ASCII case for an ASCII extension, Unicode lowercase otherwise).
pub fn get_image_mime(ext: &str) -> (r: Option<&'static str>)
    ensures
        r == image_mime(unicode_lowercase(ext@)),
        is_ascii_chars(ext@) ==> r == image_mime(ascii_lowercase(ext@)),
{
    let lower = to_lowercase(ext);
    image_mime_of_lowercase(lower.as_str())
}

} // verus!
