//! Rewriting of the page URLs in chapter page lists, and the page lists that
//! the launcher serves for downloaded chapters.

use vstd::prelude::*;
use vstd::string::*;
use crate::endpoints::{
    cache_busted, cache_busted_manga_page_url, cache_busting_is_idempotent,
    is_loopback_or_unspecified_host, is_manga_page_path, is_page_route, page_path, path_segments,
};
use crate::numbers::{decimal, push_decimal, push_signed_decimal, signed_decimal};
use crate::text::{contains, lemma_split_append_plain, lemma_strip_leading_append, opt_view, strip_leading, split};

verus! {

/// The views of a sequence of optional strings.
pub open spec fn opt_views(v: Seq<Option<String>>) -> Seq<Option<Seq<char>>> {
    v.map_values(|o: Option<String>| opt_view(o))
}

/// The view of optional bytes.
pub open spec fn opt_bytes(o: Option<Vec<u8>>) -> Option<Seq<u8>> {
    match o {
        Some(b) => Some(b@),
        None => None,
    }
}

/// What `reqwest::Url::parse` reads from a URL: its host (`Url::host_str`),
/// path (`Url::path`) and query (`Url::query`); `None` when it is no URL.
pub uninterp spec fn url_parts(raw: Seq<char>) -> Option<(Option<Seq<char>>, Seq<char>, Option<Seq<char>>)>;

/// Parses a URL with `reqwest::Url::parse` and hands out its host, path and
/// query as strings. The contract names the result (`url_parts`); of the URL
/// grammar it claims only what `Url::path` documents: a URL with a host is no
/// cannot-be-a-base URL, so a path that is not empty starts with `/`.
#[verifier::external_body]
fn parse_url_parts(raw: &str) -> (r: Option<(Option<String>, String, Option<String>)>)
    ensures
        match r {
            Some((h, p, q)) => url_parts(raw@) == Some((opt_view(h), p@, opt_view(q))),
            None => url_parts(raw@) is None,
        },
        r matches Some((Some(_h), p, _q)) ==> p@.len() == 0 || p@[0] == '/',
{
    let url = reqwest::Url::parse(raw).ok()?;
    let host = url.host_str().map(|h| h.to_string());
    Some((host, url.path().to_string(), url.query().map(|q| q.to_string())))
}

/// `127.0.0.1`, `localhost`, `::1` or `0.0.0.0`.
pub open spec fn is_loopback_host(h: Seq<char>) -> bool {
    h == "127.0.0.1"@ || h == "localhost"@ || h == "::1"@ || h == "0.0.0.0"@
}

/// The rewritten form of an absolute page URL, given its parts: a page image
/// URL on this machine becomes its path and query with the cache parameter.
pub open spec fn rewritten_parsed_url(
    host: Option<Seq<char>>,
    path: Seq<char>,
    query: Option<Seq<char>>,
) -> Option<Seq<char>> {
    match host {
        None => None,
        Some(h) => if !is_loopback_host(h) || !is_page_route(path_segments(path)) {
            None
        } else {
            let pq = match query {
                Some(q) => path + "?"@ + q,
                None => path,
            };
            Some(cache_busted(pq))
        },
    }
}

/// The rewritten form of a page URL: a relative page image path gets the
/// cache parameter, an absolute URL is rewritten from its parts.
pub open spec fn rewritten_page_url(raw: Seq<char>) -> Option<Seq<char>> {
    if raw.len() > 0 && raw[0] == '/' {
        if is_page_route(path_segments(raw)) {
            Some(cache_busted(raw))
        } else {
            None
        }
    } else {
        match url_parts(raw) {
            None => None,
            Some((h, p, q)) => rewritten_parsed_url(h, p, q),
        }
    }
}

/// Rewrites an absolute page URL from its host, path and query.
pub fn rewrite_parsed_manga_page_url(host: Option<&str>, path: &str, query: Option<&str>) -> (r:
    Option<String>)
    ensures
        opt_view(r) == rewritten_parsed_url(
            match host {
                Some(h) => Some(h@),
                None => None,
            },
            path@,
            match query {
                Some(q) => Some(q@),
                None => None,
            },
        ),
{
    let h = match host {
        Some(h) => h,
        None => return None,
    };
    if !is_loopback_or_unspecified_host(h) || !is_manga_page_path(path) {
        return None;
    }
    let mut path_and_query = path.to_owned();
    if let Some(q) = query {
        path_and_query.append("?");
        path_and_query.append(q);
    }
    Some(cache_busted_manga_page_url(path_and_query.as_str()))
}

/// Rewrites a page URL of a page list to a relative path with the cache
/// parameter, when it names a page image served by this machine.
pub fn rewrite_manga_page_url(raw_url: &str) -> (r: Option<String>)
    ensures
        opt_view(r) == rewritten_page_url(raw_url@),
        r matches Some(n) ==> n@.len() > 0 && n@[0] == '/',
{
    if raw_url.unicode_len() > 0 && raw_url.get_char(0) == '/' {
        if is_manga_page_path(raw_url) {
            let n = cache_busted_manga_page_url(raw_url);
            proof {
                lemma_cache_busted_keeps_start(raw_url@);
            }
            return Some(n);
        }
        return None;
    }
    match parse_url_parts(raw_url) {
        None => None,
        Some((h, p, q)) => {
            let hs: Option<&str> = match &h {
                Some(x) => Some(x.as_str()),
                None => None,
            };
            let qs: Option<&str> = match &q {
                Some(x) => Some(x.as_str()),
                None => None,
            };
            let r = rewrite_parsed_manga_page_url(hs, p.as_str(), qs);
            proof {
                if r is Some {
                    lemma_page_route_path_not_empty(p@);
                    let pq = match qs {
                        Some(x) => p@ + "?"@ + x@,
                        None => p@,
                    };
                    lemma_cache_busted_keeps_start(pq);
                }
            }
            r
        },
    }
}

/// Adding the cache parameter keeps the first character of a URL.
proof fn lemma_cache_busted_keeps_start(p: Seq<char>)
    requires
        p.len() > 0,
    ensures
        cache_busted(p).len() > 0,
        cache_busted(p)[0] == p[0],
{
    if !contains(p, "manatan_page_cache="@) {
        let sep = if contains(p, "?"@) {
            "&"@
        } else {
            "?"@
        };
        assert((p + sep + "manatan_page_cache="@ + "downloadfix2"@)[0] == p[0]);
    }
}

/// A path that names a page image is not empty.
proof fn lemma_page_route_path_not_empty(p: Seq<char>)
    requires
        is_page_route(path_segments(p)),
    ensures
        p.len() > 0,
{
    if p.len() == 0 {
        assert(strip_leading(p, '/') == p);
        assert(split(p, '/') =~= seq![Seq::<char>::empty()]);
    }
}

/// A relative page URL, once rewritten, is left as it is by another
/// rewrite, so a page list that was rewritten does not change again.
pub proof fn rewriting_a_page_path_twice_changes_nothing(raw: Seq<char>)
    requires
        raw.len() > 0,
        raw[0] == '/',
        rewritten_page_url(raw) is Some,
    ensures
        rewritten_page_url(rewritten_page_url(raw).unwrap()) == rewritten_page_url(raw),
        page_update(rewritten_page_url(raw)) is None,
{
    let new = cache_busted(raw);
    cache_busting_is_idempotent(raw);
    if !contains(raw, "manatan_page_cache="@) {
        let sep = if contains(raw, "?"@) {
            "&"@
        } else {
            "?"@
        };
        let t = sep + "manatan_page_cache="@ + "downloadfix2"@;
        assert(new =~= raw + t);
        assert forall|i: int| 0 <= i < t.len() implies t[i] != '/' by {
            reveal_strlit("&");
            reveal_strlit("?");
            reveal_strlit("manatan_page_cache=");
            reveal_strlit("downloadfix2");
        }
        let u = strip_leading(raw, '/');
        assert(split(u, '/').len() == 8);
        if u.len() == 0 {
            assert(split(u, '/') =~= seq![Seq::<char>::empty()]);
        }
        lemma_strip_leading_append(raw, t, '/');
        lemma_split_append_plain(u, t, '/');
        assert(path_segments(new) == split(u + t, '/'));
        assert(is_page_route(path_segments(new)));
        assert(new[0] == '/');
    }
}

/// The new value of one page list entry, when it changes: a string entry whose
/// rewritten URL differs from it.
pub open spec fn page_update(entry: Option<Seq<char>>) -> Option<Seq<char>> {
    match entry {
        Some(raw) => match rewritten_page_url(raw) {
            Some(new) => if new != raw {
                Some(new)
            } else {
                None
            },
            None => None,
        },
        None => None,
    }
}

/// The entries of a page list that change, with their positions, in order.
pub open spec fn page_updates(pages: Seq<Option<Seq<char>>>) -> Seq<(usize, Seq<char>)>
    decreases pages.len(),
{
    if pages.len() == 0 {
        Seq::<(usize, Seq<char>)>::empty()
    } else {
        let prev = page_updates(pages.drop_last());
        match page_update(pages.last()) {
            Some(new) => prev.push(((pages.len() - 1) as usize, new)),
            None => prev,
        }
    }
}

/// The views of a sequence of position and string pairs.
pub open spec fn update_views(v: Seq<(usize, String)>) -> Seq<(usize, Seq<char>)> {
    v.map_values(|u: (usize, String)| (u.0, u.1@))
}

/// A page list entry whose new value, when it changes, is a path.
pub open spec fn updates_to_path(entry: Option<Seq<char>>) -> bool {
    page_update(entry) matches Some(n) ==> n.len() > 0 && n[0] == '/'
}

/// The changes that rewriting makes to a page list: each string entry whose
/// URL gets rewritten to something else, with its position.
pub fn page_url_updates(pages: &Vec<Option<String>>) -> (r: Vec<(usize, String)>)
    ensures
        update_views(r@) == page_updates(opt_views(pages@)),
        forall|k: int| 0 <= k < r@.len() ==> (#[trigger] r@[k]).0 < pages@.len(),
        forall|k: int| 0 <= k < pages@.len() ==> updates_to_path(#[trigger] opt_views(pages@)[k]),
{
    let mut r: Vec<(usize, String)> = Vec::new();
    let mut i: usize = 0;
    assert(opt_views(pages@).take(0) =~= Seq::<Option<Seq<char>>>::empty());
    assert(update_views(r@) =~= Seq::<(usize, Seq<char>)>::empty());
    while i < pages.len()
        invariant
            i <= pages@.len(),
            update_views(r@) == page_updates(opt_views(pages@).take(i as int)),
            forall|k: int| 0 <= k < r@.len() ==> (#[trigger] r@[k]).0 < i,
            forall|k: int| 0 <= k < i ==> updates_to_path(#[trigger] opt_views(pages@)[k]),
        decreases pages.len() - i,
    {
        let ghost before = r@;
        let ghost all = opt_views(pages@);
        assert(all.take(i + 1).drop_last() =~= all.take(i as int));
        assert(all.take(i + 1).last() == opt_view(pages@[i as int]));
        match &pages[i] {
            Some(raw) => {
                match rewrite_manga_page_url(raw.as_str()) {
                    Some(new) => {
                        if new != *raw {
                            r.push((i, new));
                            assert(update_views(r@) =~= update_views(before).push(
                                (i, r@[r@.len() - 1].1@),
                            ));
                        }
                    },
                    None => {},
                }
            },
            None => {},
        }
        i += 1;
    }
    assert(opt_views(pages@).take(pages@.len() as int) =~= opt_views(pages@));
    r
}

/// What `serde_json` reads as the array under `key` of a JSON object: each
/// item as its string when it is a JSON string; `None` when the bytes are not
/// JSON or `key` holds no array.
pub uninterp spec fn json_member_array_strings(body: Seq<u8>, key: Seq<char>) -> Option<
    Seq<Option<Seq<char>>>,
>;

/// Parses `body` with `serde_json::from_slice` and reads the array under
/// `key` (`Value::get`, `Value::as_array`), each item as `Value::as_str`
/// gives it. The contract names the result and claims nothing of JSON syntax.
#[verifier::external_body]
fn json_array_member_strings(body: &[u8], key: &str) -> (r: Option<Vec<Option<String>>>)
    ensures
        match r {
            Some(v) => json_member_array_strings(body@, key@) == Some(opt_views(v@)),
            None => json_member_array_strings(body@, key@) is None,
        },
{
    let value = serde_json::from_slice::<serde_json::Value>(body).ok()?;
    let items = value.get(key)?.as_array()?;
    Some(items.iter().map(|item| item.as_str().map(|s| s.to_string())).collect())
}

/// The bytes that `serde_json::to_vec` writes for the JSON in `body` once the
/// given items of the array under `key` are set to the given strings.
pub uninterp spec fn json_array_member_strings_set(
    body: Seq<u8>,
    key: Seq<char>,
    updates: Seq<(usize, Seq<char>)>,
) -> Option<Seq<u8>>;

/// Parses `body` with `serde_json::from_slice`, sets the listed items of the
/// array under `key` to JSON strings, and writes the document back with
/// `serde_json::to_vec`. The contract names the result and claims nothing of
/// JSON syntax.
///
/// Both calls succeed here: `body` parses and holds an array under `key`,
/// every position is in range, and `serde_json::to_vec` cannot fail on a
/// `Value`, whose object keys are strings. The written document parses again
/// to the same value with the items set, as strings and numbers read back
/// what `serde_json` wrote for them; so reading the array under `key` from
/// the result gives the old items with the listed ones replaced, in order.
#[verifier::external_body]
fn json_set_array_member_strings(body: &[u8], key: &str, updates: &[(usize, String)]) -> (r:
    Option<Vec<u8>>)
    requires
        json_member_array_strings(body@, key@) matches Some(items) && forall|k: int|
            0 <= k < updates@.len() ==> (#[trigger] updates@[k]).0 < items.len(),
    ensures
        opt_bytes(r) == json_array_member_strings_set(body@, key@, update_views(updates@)),
        r is Some,
        r matches Some(out) ==> json_member_array_strings(out@, key@) == Some(
            with_items_set(json_member_array_strings(body@, key@).unwrap(), update_views(updates@)),
        ),
{
    let mut value = serde_json::from_slice::<serde_json::Value>(body).ok()?;
    let items = value.get_mut(key)?.as_array_mut()?;
    for (index, text) in updates {
        items[*index] = serde_json::Value::String(text.clone());
    }
    serde_json::to_vec(&value).ok()
}

/// The items of a list once the given positions are set to the given
/// strings, one after another (a later one for the same position wins).
pub open spec fn with_items_set(
    items: Seq<Option<Seq<char>>>,
    updates: Seq<(usize, Seq<char>)>,
) -> Seq<Option<Seq<char>>>
    decreases updates.len(),
{
    if updates.len() == 0 {
        items
    } else {
        let last = updates.last();
        with_items_set(items, updates.drop_last()).update(last.0 as int, Some(last.1))
    }
}

/// A page list with each entry replaced by its new value where it changes.
pub open spec fn rewritten_page_entries(pages: Seq<Option<Seq<char>>>) -> Seq<Option<Seq<char>>> {
    Seq::new(
        pages.len(),
        |i: int|
            match page_update(pages[i]) {
                Some(n) => Some(n),
                None => pages[i],
            },
    )
}

proof fn lemma_page_updates_in_range(pages: Seq<Option<Seq<char>>>)
    ensures
        forall|k: int|
            0 <= k < page_updates(pages).len() ==> (#[trigger] page_updates(pages)[k]).0
                < pages.len(),
    decreases pages.len(),
{
    if pages.len() > 0 {
        let d = pages.drop_last();
        lemma_page_updates_in_range(d);
        if let Some(n) = page_update(pages.last()) {
            let i = (pages.len() - 1) as usize;
            assert(page_updates(pages) == page_updates(d).push((i, n)));
            assert(i < pages.len()) by {
                if pages.len() - 1 > usize::MAX {
                    assert(i <= usize::MAX);
                }
            }
        }
    }
}

proof fn lemma_items_set_push(
    items: Seq<Option<Seq<char>>>,
    x: Option<Seq<char>>,
    updates: Seq<(usize, Seq<char>)>,
)
    requires
        forall|k: int| 0 <= k < updates.len() ==> (#[trigger] updates[k]).0 < items.len(),
    ensures
        with_items_set(items.push(x), updates) == with_items_set(items, updates).push(x),
        with_items_set(items, updates).len() == items.len(),
    decreases updates.len(),
{
    if updates.len() > 0 {
        let rest = updates.drop_last();
        assert forall|k: int| 0 <= k < rest.len() implies (#[trigger] rest[k]).0 < items.len() by {
            assert(rest[k] == updates[k]);
        }
        lemma_items_set_push(items, x, rest);
        let a = with_items_set(items, rest);
        let last = updates.last();
        assert(updates[updates.len() - 1] == last);
        assert(a.push(x).update(last.0 as int, Some(last.1)) =~= a.update(
            last.0 as int,
            Some(last.1),
        ).push(x));
    }
}

proof fn lemma_setting_page_updates(pages: Seq<Option<Seq<char>>>)
    requires
        pages.len() <= usize::MAX,
    ensures
        with_items_set(pages, page_updates(pages)) == rewritten_page_entries(pages),
    decreases pages.len(),
{
    if pages.len() == 0 {
        assert(rewritten_page_entries(pages) =~= pages);
    } else {
        let d = pages.drop_last();
        let x = pages.last();
        lemma_setting_page_updates(d);
        lemma_page_updates_in_range(d);
        lemma_items_set_push(d, x, page_updates(d));
        assert(d.push(x) =~= pages);
        let before = rewritten_page_entries(d).push(x);
        assert(with_items_set(pages, page_updates(d)) == before);
        match page_update(x) {
            Some(n) => {
                let i = (pages.len() - 1) as usize;
                assert(page_updates(pages) == page_updates(d).push((i, n)));
                assert(page_updates(pages).drop_last() =~= page_updates(d));
                assert(before.update(d.len() as int, Some(n)) =~= rewritten_page_entries(pages));
            },
            None => {
                assert(before =~= rewritten_page_entries(pages));
            },
        }
    }
}

proof fn lemma_no_page_updates(pages: Seq<Option<Seq<char>>>)
    requires
        forall|i: int| 0 <= i < pages.len() ==> (#[trigger] page_update(pages[i])) is None,
    ensures
        page_updates(pages).len() == 0,
    decreases pages.len(),
{
    if pages.len() > 0 {
        let d = pages.drop_last();
        assert forall|i: int| 0 <= i < d.len() implies (#[trigger] page_update(d[i])) is None by {
            assert(d[i] == pages[i]);
        }
        lemma_no_page_updates(d);
        assert(page_update(pages[pages.len() - 1]) is None);
    }
}

/// A new page list entry that is a path is not changed by another rewrite.
proof fn lemma_new_entry_is_final(entry: Option<Seq<char>>)
    requires
        updates_to_path(entry),
    ensures
        page_update(entry) matches Some(n) ==> page_update(Some(n)) is None,
{
    if let Some(raw) = entry {
        if let Some(n) = rewritten_page_url(raw) {
            if raw.len() > 0 && raw[0] == '/' {
                cache_busting_is_idempotent(raw);
            } else if let Some((h, p, q)) = url_parts(raw) {
                let pq = match q {
                    Some(qq) => p + "?"@ + qq,
                    None => p,
                };
                cache_busting_is_idempotent(pq);
            }
            assert(cache_busted(n) == n);
        }
    }
}

/// The rewritten body of a page list response: `None` when it is not a JSON
/// object with a `pages` array or when no page URL changes.
pub open spec fn rewritten_pages_body(body: Seq<u8>) -> Option<Seq<u8>> {
    match json_member_array_strings(body, "pages"@) {
        None => None,
        Some(pages) => {
            let u = page_updates(pages);
            if u.len() == 0 {
                None
            } else {
                json_array_member_strings_set(body, "pages"@, u)
            }
        },
    }
}

/// Rewrites the page URLs in the JSON body of a chapter's page list.
///
/// The result is there exactly when the body holds a `pages` array with an
/// entry that changes; reading `pages` from it gives each entry's new value,
/// and rewriting it again changes nothing.
pub fn rewrite_manga_pages_body(body: &[u8]) -> (r: Option<Vec<u8>>)
    ensures
        opt_bytes(r) == rewritten_pages_body(body@),
        r is Some <==> (json_member_array_strings(body@, "pages"@) matches Some(pages)
            && page_updates(pages).len() > 0),
        r matches Some(out) ==> json_member_array_strings(out@, "pages"@) == Some(
            rewritten_page_entries(json_member_array_strings(body@, "pages"@).unwrap()),
        ),
        r matches Some(out) ==> rewritten_pages_body(out@) is None,
{
    let pages = match json_array_member_strings(body, "pages") {
        Some(p) => p,
        None => return None,
    };
    let updates = page_url_updates(&pages);
    if updates.len() == 0 {
        return None;
    }
    let r = json_set_array_member_strings(body, "pages", &updates);
    proof {
        let items = opt_views(pages@);
        assert(items.len() == pages.len());
        lemma_setting_page_updates(items);
        let new_items = rewritten_page_entries(items);
        assert forall|i: int| 0 <= i < new_items.len() implies (#[trigger] page_update(
            new_items[i],
        )) is None by {
            lemma_new_entry_is_final(items[i]);
        }
        lemma_no_page_updates(new_items);
    }
    r
}

/// The URL of one page of a downloaded chapter, as the launcher serves it.
pub open spec fn downloaded_page_url(
    manga_id: int,
    chapter_index: int,
    page_index: nat,
    cache_key: Seq<char>,
) -> Seq<char> {
    cache_busted(page_path(manga_id, chapter_index, page_index) + "?manatan_downloaded="@ + cache_key)
}

/// The page URLs of a downloaded chapter: one per page, in page order.
pub fn downloaded_page_urls(manga_id: i64, chapter_index: i64, page_count: usize, cache_key: &str) -> (r:
    Vec<String>)
    ensures
        r@.len() == page_count,
        forall|i: int|
            0 <= i < page_count ==> (#[trigger] r@[i])@ == downloaded_page_url(
                manga_id as int,
                chapter_index as int,
                i as nat,
                cache_key@,
            ),
{
    let mut r: Vec<String> = Vec::new();
    let mut i: usize = 0;
    while i < page_count
        invariant
            i <= page_count,
            r@.len() == i,
            forall|k: int|
                0 <= k < i ==> (#[trigger] r@[k])@ == downloaded_page_url(
                    manga_id as int,
                    chapter_index as int,
                    k as nat,
                    cache_key@,
                ),
        decreases page_count - i,
    {
        let mut url = "/api/v1/manga/".to_owned();
        push_signed_decimal(&mut url, manga_id);
        url.append("/chapter/");
        push_signed_decimal(&mut url, chapter_index);
        url.append("/page/");
        push_decimal(&mut url, i as u64);
        url.append("?manatan_downloaded=");
        url.append(cache_key);
        let busted = cache_busted_manga_page_url(url.as_str());
        assert(url@ =~= "/api/v1/manga/"@ + signed_decimal(manga_id as int) + "/chapter/"@
            + signed_decimal(chapter_index as int) + "/page/"@ + decimal(i as nat)
            + "?manatan_downloaded="@ + cache_key@);
        r.push(busted);
        i += 1;
    }
    r
}

/// The views of a sequence of strings.
pub open spec fn string_seq_views(v: Seq<String>) -> Seq<Seq<char>> {
    v.map_values(|s: String| s@)
}

/// The bytes that `serde_json::to_vec` writes for a JSON object whose only
/// member is `key`, holding the given strings as an array.
pub uninterp spec fn json_object_of_strings(key: Seq<char>, items: Seq<Seq<char>>) -> Option<Seq<u8>>;

/// Writes `{key: [items...]}` with `serde_json::to_vec`. The contract names
/// the result and claims nothing of JSON syntax.
#[verifier::external_body]
fn json_string_array_object(key: &str, items: &[String]) -> (r: Option<Vec<u8>>)
    ensures
        opt_bytes(r) == json_object_of_strings(key@, string_seq_views(items@)),
{
    let mut object = serde_json::Map::new();
    object.insert(key.to_string(), serde_json::Value::from(items.to_vec()));
    serde_json::to_vec(&serde_json::Value::Object(object)).ok()
}

/// The JSON body of the page list that the launcher serves for a downloaded
/// chapter: `{"pages": [...]}` with one URL per page.
pub fn downloaded_pages_body(manga_id: i64, chapter_index: i64, page_count: usize, cache_key: &str) -> (r:
    Option<Vec<u8>>)
    ensures
        opt_bytes(r) == json_object_of_strings(
            "pages"@,
            Seq::new(
                page_count as nat,
                |i: int|
                    downloaded_page_url(manga_id as int, chapter_index as int, i as nat, cache_key@),
            ),
        ),
{
    let urls = downloaded_page_urls(manga_id, chapter_index, page_count, cache_key);
    assert(string_seq_views(urls@) =~= Seq::new(
        page_count as nat,
        |i: int| downloaded_page_url(manga_id as int, chapter_index as int, i as nat, cache_key@),
    ));
    json_string_array_object("pages", &urls)
}

} // verus!
