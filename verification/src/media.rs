//! Content types of manga page images.

use vstd::prelude::*;
use crate::text::{chars_of, contains, contains_chars, ends_with, chars_occur_at, lower_chars, lower_vec, starts_with};

verus! {

/// The image type that the first bytes of a file announce: JPEG, PNG, GIF
/// (87a or 89a) or WebP (`RIFF`, four bytes, `WEBP`).
pub open spec fn sniffed_type(b: Seq<u8>) -> Option<Seq<char>> {
    if b.len() >= 3 && b[0] == 0xFF && b[1] == 0xD8 && b[2] == 0xFF {
        Some("image/jpeg"@)
    } else if b.len() >= 8 && b[0] == 0x89 && b[1] == 0x50 && b[2] == 0x4E && b[3] == 0x47 && b[4]
        == 0x0D && b[5] == 0x0A && b[6] == 0x1A && b[7] == 0x0A {
        Some("image/png"@)
    } else if b.len() >= 6 && b[0] == 0x47 && b[1] == 0x49 && b[2] == 0x46 && b[3] == 0x38 && (b[4]
        == 0x37 || b[4] == 0x39) && b[5] == 0x61 {
        Some("image/gif"@)
    } else if b.len() >= 12 && b[0] == 0x52 && b[1] == 0x49 && b[2] == 0x46 && b[3] == 0x46 && b[8]
        == 0x57 && b[9] == 0x45 && b[10] == 0x42 && b[11] == 0x50 {
        Some("image/webp"@)
    } else {
        None
    }
}

/// The image content type that a page's bytes announce.
pub fn sniff_image_content_type(bytes: &[u8]) -> (r: Option<&'static str>)
    ensures
        match r {
            Some(s) => sniffed_type(bytes@) == Some(s@),
            None => sniffed_type(bytes@) is None,
        },
{
    let b = bytes;
    let n = b.len();
    if n >= 3 && b[0] == 0xFF && b[1] == 0xD8 && b[2] == 0xFF {
        return Some("image/jpeg");
    }
    if n >= 8 && b[0] == 0x89 && b[1] == 0x50 && b[2] == 0x4E && b[3] == 0x47 && b[4] == 0x0D && b[5]
        == 0x0A && b[6] == 0x1A && b[7] == 0x0A {
        return Some("image/png");
    }
    if n >= 6 && b[0] == 0x47 && b[1] == 0x49 && b[2] == 0x46 && b[3] == 0x38 && (b[4] == 0x37 || b[4]
        == 0x39) && b[5] == 0x61 {
        return Some("image/gif");
    }
    if n >= 12 && b[0] == 0x52 && b[1] == 0x49 && b[2] == 0x46 && b[3] == 0x46 && b[8] == 0x57 && b[9]
        == 0x45 && b[10] == 0x42 && b[11] == 0x50 {
        return Some("image/webp");
    }
    None
}

/// The content type of a downloaded page: what its bytes announce, else AVIF
/// when its name ends in `.avif` (ignoring ASCII case), else
/// `application/octet-stream`.
pub open spec fn downloaded_page_type(name: Seq<char>, bytes: Seq<u8>) -> Seq<char> {
    match sniffed_type(bytes) {
        Some(t) => t,
        None => if ends_with(lower_chars(name), ".avif"@) {
            "image/avif"@
        } else {
            "application/octet-stream"@
        },
    }
}

/// The content type to serve a downloaded page with.
pub fn content_type_for_downloaded_page(page_name: &str, bytes: &[u8]) -> (r: &'static str)
    ensures
        r@ == downloaded_page_type(page_name@, bytes@),
{
    if let Some(t) = sniff_image_content_type(bytes) {
        return t;
    }
    let v = chars_of(page_name);
    let l = lower_vec(&v);
    let suffix = chars_of(".avif");
    if suffix.len() <= l.len() && chars_occur_at(&l, &suffix, l.len() - suffix.len()) {
        "image/avif"
    } else {
        "application/octet-stream"
    }
}

/// A `Content-Type` header value names an image: it starts with `image/`,
/// ignoring ASCII case.
pub open spec fn names_image_type(value: Option<Seq<char>>) -> bool {
    match value {
        Some(v) => starts_with(lower_chars(v), "image/"@),
        None => false,
    }
}

/// A `Content-Type` header value names JSON: it contains `application/json`,
/// ignoring ASCII case.
pub open spec fn names_json_type(value: Option<Seq<char>>) -> bool {
    match value {
        Some(v) => contains(lower_chars(v), "application/json"@),
        None => false,
    }
}

/// Whether a response's `Content-Type` value, when it has a readable one,
/// names an image.
pub fn is_image_content_type(value: Option<&str>) -> (r: bool)
    ensures
        r == names_image_type(
            match value {
                Some(v) => Some(v@),
                None => None,
            },
        ),
{
    match value {
        Some(v) => {
            let c = chars_of(v);
            let l = lower_vec(&c);
            let p = chars_of("image/");
            chars_occur_at(&l, &p, 0)
        },
        None => false,
    }
}

/// Whether a response's `Content-Type` value, when it has a readable one,
/// names JSON.
pub fn is_json_content_type(value: Option<&str>) -> (r: bool)
    ensures
        r == names_json_type(
            match value {
                Some(v) => Some(v@),
                None => None,
            },
        ),
{
    match value {
        Some(v) => {
            let c = chars_of(v);
            let l = lower_vec(&c);
            let p = chars_of("application/json");
            contains_chars(&l, &p)
        },
        None => false,
    }
}

} // verus!
