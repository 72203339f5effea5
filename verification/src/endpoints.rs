//! Recognition of the manga API routes that the launcher serves or rewrites,
//! and the cache-busting query parameter added to page image URLs.

use vstd::prelude::*;
use vstd::string::*;
use crate::numbers::{
    decimal, lemma_decimal_parses, lemma_decimal_reads_back, lemma_signed_decimal_chars,
    lemma_signed_decimal_parses, parse_i64_spec, parse_int_chars, parse_usize_spec, signed_decimal,
};
use crate::text::{
    chars_eq_str, chars_of, contains, contains_chars, is_digit, lemma_split_concat, lemma_split_single,
    split, split_bounds, strip_leading, strip_leading_index, sub_chars,
};

verus! {

/// A manga page route whose content the launcher can serve from downloads.
#[derive(Debug, Clone, Copy, PartialEq, Eq, Structural)]
pub enum MangaPageEndpoint {
    /// `/api/v1/manga/{manga_id}/chapter/{chapter_index}/pages`
    Pages { manga_id: i64, chapter_index: i64 },
    /// `/api/v1/manga/{manga_id}/chapter/{chapter_index}/page/{page_index}`
    Page { manga_id: i64, chapter_index: i64, page_index: usize },
}

/// The `/`-separated segments of a request path, leading slashes dropped.
pub open spec fn path_segments(p: Seq<char>) -> Seq<Seq<char>> {
    split(strip_leading(p, '/'), '/')
}

/// `api/v1/manga/{id}/chapter/{index}/pages`, exactly.
pub open spec fn is_pages_route(s: Seq<Seq<char>>) -> bool {
    &&& s.len() == 7
    &&& s[0] == "api"@
    &&& s[1] == "v1"@
    &&& s[2] == "manga"@
    &&& s[4] == "chapter"@
    &&& s[6] == "pages"@
}

/// `api/v1/manga/{id}/chapter/{index}/page/{page}`, exactly.
pub open spec fn is_page_route(s: Seq<Seq<char>>) -> bool {
    &&& s.len() == 8
    &&& s[0] == "api"@
    &&& s[1] == "v1"@
    &&& s[2] == "manga"@
    &&& s[4] == "chapter"@
    &&& s[6] == "page"@
}

/// `api/v1/manga/{id}/chapters`, exactly.
pub open spec fn is_chapters_route(s: Seq<Seq<char>>) -> bool {
    &&& s.len() == 5
    &&& s[0] == "api"@
    &&& s[1] == "v1"@
    &&& s[2] == "manga"@
    &&& s[4] == "chapters"@
}

/// The endpoint that a request path names, with its numbers parsed.
pub open spec fn manga_page_endpoint(p: Seq<char>) -> Option<MangaPageEndpoint> {
    let s = path_segments(p);
    if is_pages_route(s) {
        match (parse_i64_spec(s[3]), parse_i64_spec(s[5])) {
            (Some(m), Some(c)) => Some(
                MangaPageEndpoint::Pages { manga_id: m as i64, chapter_index: c as i64 },
            ),
            _ => None,
        }
    } else if is_page_route(s) {
        match (parse_i64_spec(s[3]), parse_i64_spec(s[5]), parse_usize_spec(s[7])) {
            (Some(m), Some(c), Some(i)) => Some(
                MangaPageEndpoint::Page {
                    manga_id: m as i64,
                    chapter_index: c as i64,
                    page_index: i as usize,
                },
            ),
            _ => None,
        }
    } else {
        None
    }
}

/// A request path split into segments: the path without its leading slashes,
/// where that starts in the path, and the bounds of each segment within it.
struct Segments {
    text: Vec<char>,
    start: usize,
    bounds: Vec<(usize, usize)>,
}

impl Segments {
    spec fn wf(&self, p: Seq<char>) -> bool {
        &&& self.start <= p.len()
        &&& p.len() <= usize::MAX
        &&& self.text@ == strip_leading(p, '/')
        &&& self.text@ == p.subrange(self.start as int, p.len() as int)
        &&& self.bounds@.len() == path_segments(p).len()
        &&& forall|k: int|
            0 <= k < self.bounds@.len() ==> (#[trigger] self.bounds@[k]).0 <= self.bounds@[k].1
                <= self.text@.len() && self.text@.subrange(
                self.bounds@[k].0 as int,
                self.bounds@[k].1 as int,
            ) == path_segments(p)[k]
    }

    fn of(path: &str) -> (r: Segments)
        ensures
            r.wf(path@),
    {
        let v = chars_of(path);
        let start = strip_leading_index(&v, '/');
        let text = sub_chars(&v, start, v.len());
        let bounds = split_bounds(&text, '/', '/');
        Segments { text, start, bounds }
    }

    fn chars(&self, k: usize, Ghost(p): Ghost<Seq<char>>) -> (r: Vec<char>)
        requires
            self.wf(p),
            k < self.bounds@.len(),
        ensures
            r@ == path_segments(p)[k as int],
    {
        let (a, b) = self.bounds[k];
        sub_chars(&self.text, a, b)
    }

    fn is(&self, k: usize, lit: &str, Ghost(p): Ghost<Seq<char>>) -> (r: bool)
        requires
            self.wf(p),
            k < self.bounds@.len(),
        ensures
            r == (path_segments(p)[k as int] == lit@),
    {
        let c = self.chars(k, Ghost(p));
        chars_eq_str(&c, lit)
    }

    fn is_manga_route(&self, len: usize, key: usize, word: &str, Ghost(p): Ghost<Seq<char>>) -> (r: bool)
        requires
            self.wf(p),
            2 < key < len,
        ensures
            r == (path_segments(p).len() == len && path_segments(p)[0] == "api"@
                && path_segments(p)[1] == "v1"@ && path_segments(p)[2] == "manga"@
                && path_segments(p)[key as int] == word@),
    {
        self.bounds.len() == len && self.is(0, "api", Ghost(p)) && self.is(1, "v1", Ghost(p))
            && self.is(2, "manga", Ghost(p)) && self.is(key, word, Ghost(p))
    }
}

/// Whether a request path is the page list of a chapter, the response that
/// gets its page URLs rewritten.
pub fn is_manga_pages_path(path: &str) -> (r: bool)
    ensures
        r == is_pages_route(path_segments(path@)),
{
    let s = Segments::of(path);
    s.is_manga_route(7, 6, "pages", Ghost(path@)) && s.is(4, "chapter", Ghost(path@))
}

/// Whether a request path is a single page image of a chapter.
pub fn is_manga_page_path(path: &str) -> (r: bool)
    ensures
        r == is_page_route(path_segments(path@)),
{
    let s = Segments::of(path);
    s.is_manga_route(8, 6, "page", Ghost(path@)) && s.is(4, "chapter", Ghost(path@))
}

/// The manga id of a chapter list request path, as it is written there.
pub fn manga_chapters_path_manga_id(path: &str) -> (r: Option<&str>)
    ensures
        match r {
            Some(id) => is_chapters_route(path_segments(path@)) && id@ == path_segments(path@)[3],
            None => !is_chapters_route(path_segments(path@)),
        },
{
    let s = Segments::of(path);
    if !s.is_manga_route(5, 4, "chapters", Ghost(path@)) {
        return None;
    }
    let (a, b) = s.bounds[3];
    let id = path.substring_char(s.start + a, s.start + b);
    assert(path@.subrange(s.start + a, s.start + b) =~= s.text@.subrange(a as int, b as int));
    Some(id)
}

/// The endpoint that a request path names, when it is a chapter's page list
/// or one of its pages and its ids are numbers.
pub fn parse_manga_page_endpoint(path: &str) -> (r: Option<MangaPageEndpoint>)
    ensures
        r == manga_page_endpoint(path@),
{
    let ghost p = path@;
    let s = Segments::of(path);
    let pages = s.is_manga_route(7, 6, "pages", Ghost(p)) && s.is(4, "chapter", Ghost(p));
    let page = !pages && s.is_manga_route(8, 6, "page", Ghost(p)) && s.is(4, "chapter", Ghost(p));
    if !pages && !page {
        return None;
    }
    let manga = parse_int_chars(&s.chars(3, Ghost(p)), true, i64::MIN as i128, i64::MAX as i128);
    let chapter = parse_int_chars(&s.chars(5, Ghost(p)), true, i64::MIN as i128, i64::MAX as i128);
    if pages {
        match (manga, chapter) {
            (Some(m), Some(c)) => Some(
                MangaPageEndpoint::Pages { manga_id: m as i64, chapter_index: c as i64 },
            ),
            _ => None,
        }
    } else {
        let index = parse_int_chars(&s.chars(7, Ghost(p)), false, 0, usize::MAX as i128);
        match (manga, chapter, index) {
            (Some(m), Some(c), Some(i)) => Some(
                MangaPageEndpoint::Page {
                    manga_id: m as i64,
                    chapter_index: c as i64,
                    page_index: i as usize,
                },
            ),
            _ => None,
        }
    }
}

/// A path that names a chapter's page list and a path that names one page
/// are never the same path.
pub proof fn pages_and_page_routes_are_disjoint(p: Seq<char>)
    ensures
        !(is_pages_route(path_segments(p)) && is_page_route(path_segments(p))),
{
}

/// A path parsed as a page list endpoint is a page list path, and a path
/// parsed as a page endpoint is a page path.
pub proof fn parsed_endpoint_matches_route(p: Seq<char>)
    ensures
        manga_page_endpoint(p) matches Some(MangaPageEndpoint::Pages { .. }) ==> is_pages_route(
            path_segments(p),
        ),
        manga_page_endpoint(p) matches Some(MangaPageEndpoint::Page { .. }) ==> is_page_route(
            path_segments(p),
        ),
{
}

/// The path of one page of a chapter: `/api/v1/manga/{m}/chapter/{c}/page/{i}`.
pub open spec fn page_path(manga_id: int, chapter_index: int, page_index: nat) -> Seq<char> {
    "/api/v1/manga/"@ + signed_decimal(manga_id) + "/chapter/"@ + signed_decimal(chapter_index)
        + "/page/"@ + decimal(page_index)
}

proof fn lemma_number_piece(n: int)
    ensures
        forall|i: int| 0 <= i < signed_decimal(n).len() ==> signed_decimal(n)[i] != '/',
{
    lemma_signed_decimal_chars(n);
    assert forall|i: int| 0 <= i < signed_decimal(n).len() implies signed_decimal(n)[i] != '/' by {
        assert(is_digit(signed_decimal(n)[i]) || signed_decimal(n)[i] == '-');
    }
}

/// The path made for a page names that page: it parses back to the page
/// endpoint with the same manga id, chapter index and page index.
pub proof fn page_path_parses_back(manga_id: i64, chapter_index: i64, page_index: usize)
    ensures
        manga_page_endpoint(page_path(manga_id as int, chapter_index as int, page_index as nat))
            == Some(
            MangaPageEndpoint::Page { manga_id, chapter_index, page_index },
        ),
        is_page_route(path_segments(page_path(manga_id as int, chapter_index as int, page_index as nat))),
{
    reveal_strlit("/api/v1/manga/");
    reveal_strlit("/chapter/");
    reveal_strlit("/page/");
    reveal_strlit("api");
    reveal_strlit("v1");
    reveal_strlit("manga");
    reveal_strlit("chapter");
    reveal_strlit("page");
    let a = signed_decimal(manga_id as int);
    let c = signed_decimal(chapter_index as int);
    let d = decimal(page_index as nat);
    let sl = seq!['/'];
    let r7 = d;
    let r6 = "page"@ + sl + r7;
    let r5 = c + sl + r6;
    let r4 = "chapter"@ + sl + r5;
    let r3 = a + sl + r4;
    let r2 = "manga"@ + sl + r3;
    let r1 = "v1"@ + sl + r2;
    let r0 = "api"@ + sl + r1;
    let p = page_path(manga_id as int, chapter_index as int, page_index as nat);
    assert(p =~= sl + r0);
    assert(p.drop_first() =~= r0);
    assert(strip_leading(r0, '/') == r0);
    assert(strip_leading(p, '/') == r0);
    lemma_number_piece(manga_id as int);
    lemma_number_piece(chapter_index as int);
    lemma_decimal_reads_back(page_index as nat);
    assert forall|i: int| 0 <= i < d.len() implies d[i] != '/' by {
        assert(is_digit(d[i]));
    }
    lemma_split_single(d, '/');
    lemma_split_single("page"@, '/');
    lemma_split_single(c, '/');
    lemma_split_single("chapter"@, '/');
    lemma_split_single(a, '/');
    lemma_split_single("manga"@, '/');
    lemma_split_single("v1"@, '/');
    lemma_split_single("api"@, '/');
    lemma_split_concat("page"@, r7, '/');
    lemma_split_concat(c, r6, '/');
    lemma_split_concat("chapter"@, r5, '/');
    lemma_split_concat(a, r4, '/');
    lemma_split_concat("manga"@, r3, '/');
    lemma_split_concat("v1"@, r2, '/');
    lemma_split_concat("api"@, r1, '/');
    let segs = path_segments(p);
    assert(segs =~= seq!["api"@, "v1"@, "manga"@, a, "chapter"@, c, "page"@, d]);
    lemma_signed_decimal_parses(manga_id as int, i64::MIN as int, i64::MAX as int);
    lemma_signed_decimal_parses(chapter_index as int, i64::MIN as int, i64::MAX as int);
    lemma_decimal_parses(page_index as nat, usize::MAX as int);
}

/// The URL with the page cache parameter: unchanged when it already carries
/// one, else with `manatan_page_cache=downloadfix2` appended after `?` (or
/// after `&` when it already has a query).
pub open spec fn cache_busted(p: Seq<char>) -> Seq<char> {
    if contains(p, "manatan_page_cache="@) {
        p
    } else {
        let sep = if contains(p, "?"@) {
            "&"@
        } else {
            "?"@
        };
        p + sep + "manatan_page_cache="@ + "downloadfix2"@
    }
}

/// Adds the page cache parameter to a page URL's path and query.
pub fn cache_busted_manga_page_url(path_and_query: &str) -> (r: String)
    ensures
        r@ == cache_busted(path_and_query@),
{
    let v = chars_of(path_and_query);
    let marker = chars_of("manatan_page_cache=");
    if contains_chars(&v, &marker) {
        return path_and_query.to_owned();
    }
    let question = chars_of("?");
    let mut r = path_and_query.to_owned();
    if contains_chars(&v, &question) {
        r.append("&");
    } else {
        r.append("?");
    }
    r.append("manatan_page_cache=");
    r.append("downloadfix2");
    r
}

/// Adding the page cache parameter twice is the same as adding it once.
pub proof fn cache_busting_is_idempotent(p: Seq<char>)
    ensures
        cache_busted(cache_busted(p)) == cache_busted(p),
        contains(cache_busted(p), "manatan_page_cache="@),
{
    let m = "manatan_page_cache="@;
    if !contains(p, m) {
        let sep = if contains(p, "?"@) {
            "&"@
        } else {
            "?"@
        };
        let q = p + sep + m + "downloadfix2"@;
        let i: int = (p.len() + sep.len()) as int;
        assert(q.subrange(i, i + m.len()) =~= m);
        assert(crate::text::occurs_at(q, m, i));
    }
}

/// Whether a URL host is this machine: `127.0.0.1`, `localhost`, `::1` or `0.0.0.0`.
pub fn is_loopback_or_unspecified_host(host: &str) -> (r: bool)
    ensures
        r == (host@ == "127.0.0.1"@ || host@ == "localhost"@ || host@ == "::1"@ || host@
            == "0.0.0.0"@),
{
    let v = chars_of(host);
    chars_eq_str(&v, "127.0.0.1") || chars_eq_str(&v, "localhost") || chars_eq_str(&v, "::1")
        || chars_eq_str(&v, "0.0.0.0")
}

} // verus!
