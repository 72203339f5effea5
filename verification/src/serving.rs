//! Decisions of the web front: which responses get rewritten or corrected,
//! and how the single-page app is served.

use vstd::prelude::*;
use vstd::string::*;
use crate::endpoints::{is_manga_pages_path, is_pages_route, path_segments};
use crate::media::{is_image_content_type, is_json_content_type, names_image_type, names_json_type};
use crate::text::{chars_of, strip_leading, strip_leading_index, string_from_chars};
use crate::titles::{replace_all, replace_all_chars};

verus! {

/// The view of an optional string slice.
pub open spec fn opt_str_view(o: Option<&str>) -> Option<Seq<char>> {
    match o {
        Some(s) => Some(s@),
        None => None,
    }
}

/// A response gets its page URLs rewritten when it answers a chapter's page
/// list request, succeeded, and is JSON.
pub fn should_rewrite_pages_response(path: &str, success: bool, content_type: Option<&str>) -> (r: bool)
    ensures
        r == (is_pages_route(path_segments(path@)) && success && names_json_type(
            opt_str_view(content_type),
        )),
{
    is_manga_pages_path(path) && success && is_json_content_type(content_type)
}

/// A page image response gets its content type corrected when it succeeded
/// and does not already name an image type.
pub fn should_correct_page_content_type(success: bool, content_type: Option<&str>) -> (r: bool)
    ensures
        r == (success && !names_image_type(opt_str_view(content_type))),
{
    success && !is_image_content_type(content_type)
}

/// The asset that a request path asks for: the path without its leading slashes.
pub fn asset_request_path(uri_path: &str) -> (r: &str)
    ensures
        r@ == strip_leading(uri_path@, '/'),
{
    let v = chars_of(uri_path);
    let i = strip_leading_index(&v, '/');
    uri_path.substring_char(i, v.len())
}

/// The single-page app's index document with a `<base href="/" />` added
/// after each `<head>`, so that nested routes load their assets from the root.
pub fn index_html_with_base(html: &str) -> (r: String)
    ensures
        r@ == replace_all(html@, "<head>"@, "<head><base href=\"/\" />"@),
{
    proof {
        reveal_strlit("<head>");
    }
    let v = chars_of(html);
    let out = replace_all_chars(&v, "<head>", "<head><base href=\"/\" />");
    string_from_chars(&out)
}

} // verus!
