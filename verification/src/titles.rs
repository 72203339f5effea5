//! Titles and folder names of local manga, derived from archive names,
//! `ComicInfo.xml` and `meta.json`, and the fingerprint of page bytes.

use vstd::prelude::*;
use vstd::string::*;
use vstd::utf8::{decode_utf8, valid_utf8};
use crate::numbers::{all_digits, digits_value, hex_digits, lemma_decimal_unique, lemma_strip_zeros, push_hex};
use crate::text::{
    chars_occur_at, chars_of, eq_ignore_case, eq_ignore_case_str, find, find_chars,
    is_digit, last_index, last_index_of, lower_chars, lower_vec, occurs_at,
    opt_view, starts_with, string_from_chars, strip_leading, strip_leading_index,
    strip_trailing, strip_trailing_index, sub_chars, trim, trim_bounds, trim_end, trim_start, trim_str,
    is_whitespace,
};

verus! {

/// `char::is_control`: the characters of general category Cc.
pub open spec fn is_control(c: char) -> bool {
    c <= '\u{1f}' || ('\u{7f}' <= c && c <= '\u{9f}')
}

/// Characters that cannot stand in a folder name on common file systems.
pub open spec fn is_forbidden_in_folder_name(c: char) -> bool {
    is_control(c) || c == '<' || c == '>' || c == ':' || c == '"' || c == '/' || c == '\\' || c
        == '|' || c == '?' || c == '*'
}

/// A character of a folder name, with forbidden ones replaced by `_`.
pub open spec fn folder_char(c: char) -> char {
    if is_forbidden_in_folder_name(c) {
        '_'
    } else {
        c
    }
}

/// A name made safe as a folder name: forbidden characters replaced by `_`,
/// then whitespace, then dots, then whitespace trimmed from both ends;
/// `None` when nothing is left.
pub open spec fn sanitized_folder_name(v: Seq<char>) -> Option<Seq<char>> {
    let m = v.map_values(|c: char| folder_char(c));
    let t = trim(strip_trailing(strip_leading(trim(m), '.'), '.'));
    if t.len() > 0 {
        Some(t)
    } else {
        None
    }
}

/// A name without control characters and without any of `< > : " / \\ | ? *`,
/// with no whitespace or dot at either end, is kept as it is: sanitizing
/// changes nothing else (apostrophes, accents and other punctuation stay).
pub proof fn clean_folder_names_are_kept(v: Seq<char>)
    requires
        v.len() > 0,
        forall|i: int|
            0 <= i < v.len() ==> !is_control(#[trigger] v[i]) && v[i] != '<' && v[i] != '>' && v[i]
                != ':' && v[i] != '"' && v[i] != '/' && v[i] != '\\' && v[i] != '|' && v[i] != '?'
                && v[i] != '*',
        !is_whitespace(v[0]),
        !is_whitespace(v.last()),
        v[0] != '.',
        v.last() != '.',
    ensures
        sanitized_folder_name(v) == Some(v),
{
    let m = v.map_values(|c: char| folder_char(c));
    assert(m =~= v);
    assert(trim_start(v) == v);
    assert(trim_end(v) == v);
    assert(strip_leading(v, '.') == v);
    assert(strip_trailing(v, '.') == v);
}

/// No character of `s` is one that a folder name cannot hold.
pub open spec fn no_forbidden_chars(s: Seq<char>) -> bool {
    forall|i: int| 0 <= i < s.len() ==> !is_forbidden_in_folder_name(#[trigger] s[i])
}

proof fn lemma_trim_start_safe(s: Seq<char>)
    requires
        no_forbidden_chars(s),
    ensures
        no_forbidden_chars(trim_start(s)),
        trim_start(s).len() > 0 ==> !is_whitespace(trim_start(s)[0]),
    decreases s.len(),
{
    if s.len() > 0 && is_whitespace(s[0]) {
        assert forall|i: int| 0 <= i < s.drop_first().len() implies !is_forbidden_in_folder_name(
            #[trigger] s.drop_first()[i],
        ) by {
            assert(s.drop_first()[i] == s[i + 1]);
        }
        lemma_trim_start_safe(s.drop_first());
    }
}

proof fn lemma_trim_end_safe(s: Seq<char>)
    requires
        no_forbidden_chars(s),
    ensures
        no_forbidden_chars(trim_end(s)),
        trim_end(s).len() > 0 ==> !is_whitespace(trim_end(s).last()),
        trim_end(s).len() > 0 ==> trim_end(s)[0] == s[0],
    decreases s.len(),
{
    if s.len() > 0 && is_whitespace(s.last()) {
        lemma_trim_end_safe(s.drop_last());
    }
}

proof fn lemma_strip_leading_safe(s: Seq<char>, c: char)
    requires
        no_forbidden_chars(s),
    ensures
        no_forbidden_chars(strip_leading(s, c)),
    decreases s.len(),
{
    if s.len() > 0 && s[0] == c {
        assert forall|i: int| 0 <= i < s.drop_first().len() implies !is_forbidden_in_folder_name(
            #[trigger] s.drop_first()[i],
        ) by {
            assert(s.drop_first()[i] == s[i + 1]);
        }
        lemma_strip_leading_safe(s.drop_first(), c);
    }
}

proof fn lemma_strip_trailing_safe(s: Seq<char>, c: char)
    requires
        no_forbidden_chars(s),
    ensures
        no_forbidden_chars(strip_trailing(s, c)),
    decreases s.len(),
{
    if s.len() > 0 && s.last() == c {
        lemma_strip_trailing_safe(s.drop_last(), c);
    }
}

/// A sanitized folder name is not empty, holds no character that a folder
/// name cannot hold (path separators among them), and has no whitespace at
/// either end.
pub proof fn sanitized_folder_names_are_safe(v: Seq<char>)
    ensures
        sanitized_folder_name(v) matches Some(f) ==> {
            &&& f.len() > 0
            &&& no_forbidden_chars(f)
            &&& !is_whitespace(f[0])
            &&& !is_whitespace(f.last())
        },
{
    let m = v.map_values(|c: char| folder_char(c));
    assert(no_forbidden_chars(m));
    lemma_trim_start_safe(m);
    lemma_trim_end_safe(trim_start(m));
    let a = strip_leading(trim(m), '.');
    lemma_strip_leading_safe(trim(m), '.');
    lemma_strip_trailing_safe(a, '.');
    let b = strip_trailing(a, '.');
    lemma_trim_start_safe(b);
    lemma_trim_end_safe(trim_start(b));
}

/// Makes a title safe to use as a local manga folder name.
pub fn sanitize_local_manga_folder_name(value: &str) -> (r: Option<String>)
    ensures
        opt_view(r) == sanitized_folder_name(value@),
{
    let v = chars_of(value);
    let mut m: Vec<char> = Vec::new();
    let mut i: usize = 0;
    while i < v.len()
        invariant
            i <= v@.len(),
            m@ == v@.subrange(0, i as int).map_values(|c: char| folder_char(c)),
        decreases v.len() - i,
    {
        let c = v[i];
        let forbidden = c <= '\u{1f}' || ('\u{7f}' <= c && c <= '\u{9f}') || c == '<' || c == '>'
            || c == ':' || c == '"' || c == '/' || c == '\\' || c == '|' || c == '?' || c == '*';
        m.push(
            if forbidden {
                '_'
            } else {
                c
            },
        );
        assert(v@.subrange(0, i + 1).map_values(|c: char| folder_char(c)) =~= v@.subrange(
            0,
            i as int,
        ).map_values(|c: char| folder_char(c)).push(folder_char(c)));
        i += 1;
    }
    assert(v@.subrange(0, v.len() as int) =~= v@);
    let (a, b) = trim_bounds(&m);
    let t1 = sub_chars(&m, a, b);
    let j = strip_leading_index(&t1, '.');
    let t2 = sub_chars(&t1, j, t1.len());
    let k = strip_trailing_index(&t2, '.');
    let t3 = sub_chars(&t2, 0, k);
    let (c, d) = trim_bounds(&t3);
    let t4 = sub_chars(&t3, c, d);
    if t4.len() == 0 {
        None
    } else {
        Some(string_from_chars(&t4))
    }
}

/// A chapter number without surrounding whitespace and leading zeros, or "0".
pub open spec fn normalized_number(v: Seq<char>) -> Seq<char> {
    let n = strip_leading(trim(v), '0');
    if n.len() == 0 {
        "0"@
    } else {
        n
    }
}

/// Normalizing never gives an empty number, and two chapter numbers written
/// with ASCII digits normalize alike exactly when they denote the same number.
pub proof fn chapter_numbers_normalize_alike_when_equal(a: Seq<char>, b: Seq<char>)
    requires
        a.len() > 0,
        b.len() > 0,
        all_digits(a),
        all_digits(b),
    ensures
        normalized_number(a).len() > 0,
        normalized_number(a) == normalized_number(b) <==> digits_value(a) == digits_value(b),
{
    lemma_digits_trim(a);
    lemma_digits_trim(b);
    lemma_strip_zeros(a);
    lemma_strip_zeros(b);
    let ta = strip_leading(a, '0');
    let tb = strip_leading(b, '0');
    reveal_strlit("0");
    if ta.len() > 0 {
        lemma_decimal_unique(ta);
    } else {
        assert(digits_value(ta) == 0);
    }
    if tb.len() > 0 {
        lemma_decimal_unique(tb);
    } else {
        assert(digits_value(tb) == 0);
    }
    if ta.len() > 0 && tb.len() == 0 {
        assert(normalized_number(b) == "0"@);
        assert(ta[0] != "0"@[0]);
    }
    if tb.len() > 0 && ta.len() == 0 {
        assert(normalized_number(a) == "0"@);
        assert(tb[0] != "0"@[0]);
    }
}

/// ASCII digits have no whitespace to trim.
proof fn lemma_digits_trim(a: Seq<char>)
    requires
        a.len() > 0,
        all_digits(a),
    ensures
        trim(a) == a,
{
    assert(is_digit(a[0]));
    assert(is_digit(a[a.len() - 1]));
    assert(trim_start(a) == a);
    assert(trim_end(a) == a);
}

/// Normalizes a chapter number for comparison.
pub fn normalize_chapter_number(value: &str) -> (r: String)
    ensures
        r@ == normalized_number(value@),
{
    let t = trim_str(value);
    let v = chars_of(t);
    let i = strip_leading_index(&v, '0');
    if i == v.len() {
        "0".to_owned()
    } else {
        let n = sub_chars(&v, i, v.len());
        string_from_chars(&n)
    }
}

/// A title without a trailing word that repeats the chapter number.
pub open spec fn title_without_number(title: Seq<char>, number: Seq<char>) -> Seq<char> {
    match last_index(title, ' ') {
        None => title,
        Some(k) => if normalized_number(title.skip(k + 1)) == normalized_number(number) {
            trim(title.take(k))
        } else {
            title
        },
    }
}

/// Removes the last word of a title when it is the chapter number.
pub fn strip_matching_trailing_number(title: &str, chapter_number: &str) -> (r: String)
    ensures
        r@ == title_without_number(title@, chapter_number@),
{
    let v = chars_of(title);
    let k = match last_index_of(&v, ' ') {
        Some(k) => k,
        None => return title.to_owned(),
    };
    assert(k < v.len());
    let trailing = title.substring_char(k + 1, v.len());
    let a = normalize_chapter_number(trailing);
    let b = normalize_chapter_number(chapter_number);
    if a == b {
        let prefix = title.substring_char(0, k);
        assert(prefix@ =~= title@.take(k as int));
        trim_str(prefix).to_owned()
    } else {
        title.to_owned()
    }
}

/// Characters that may form a chapter number: digits, `.` and spaces.
pub open spec fn is_chapter_number_text(s: Seq<char>) -> bool {
    forall|i: int| 0 <= i < s.len() ==> (is_digit(#[trigger] s[i]) || s[i] == '.' || s[i] == ' ')
}

/// An archive stem for which the chapter prefix cannot be cut out: it starts,
/// ignoring ASCII case, with `chapter - `, so that the separator overlaps the
/// prefix.
pub open spec fn chapter_prefix_overlaps(stem: Seq<char>) -> bool {
    starts_with(lower_chars(trim(stem)), "chapter - "@)
}

/// A stem split into title and chapter number, when it has the form
/// `Chapter <number> - <title>` (prefix in any ASCII case).
pub open spec fn stripped_chapter_prefix(stem: Seq<char>) -> (Seq<char>, Option<Seq<char>>) {
    let t = trim(stem);
    if !starts_with(lower_chars(t), "chapter "@) {
        (t, None)
    } else {
        match find(t, " - "@) {
            None => (t, None),
            Some(k) => {
                let number = trim(t.subrange(8, k));
                if number.len() == 0 || !is_chapter_number_text(number) {
                    (t, None)
                } else {
                    (trim(t.skip(k + 3)), Some(number))
                }
            },
        }
    }
}

/// Whether the characters may form a chapter number.
fn is_chapter_number_chars(nv: &[char]) -> (r: bool)
    ensures
        r == is_chapter_number_text(nv@),
{
    let mut i: usize = 0;
    while i < nv.len()
        invariant
            i <= nv@.len(),
            forall|j: int|
                0 <= j < i ==> (is_digit(#[trigger] nv@[j]) || nv@[j] == '.' || nv@[j] == ' '),
        decreases nv.len() - i,
    {
        let c = nv[i];
        if !(('0' <= c && c <= '9') || c == '.' || c == ' ') {
            assert(!(is_digit(nv@[i as int]) || nv@[i as int] == '.' || nv@[i as int] == ' '));
            return false;
        }
        i += 1;
    }
    true
}

/// Whether an archive stem starts with an overlapping `chapter - ` prefix, on
/// which the chapter prefix cannot be cut out.
pub fn chapter_prefix_overlaps_in(stem: &str) -> (r: bool)
    ensures
        r == chapter_prefix_overlaps(stem@),
{
    let t = trim_str(stem);
    let v = chars_of(t);
    let l = lower_vec(&v);
    let p = chars_of("chapter - ");
    chars_occur_at(&l, &p, 0)
}

/// Splits a `Chapter <number> - <title>` archive stem into title and number.
pub fn strip_chapter_prefix(stem: &str) -> (r: (String, Option<String>))
    requires
        !chapter_prefix_overlaps(stem@),
    ensures
        (r.0@, opt_view(r.1)) == stripped_chapter_prefix(stem@),
{
    let t = trim_str(stem);
    let v = chars_of(t);
    let l = lower_vec(&v);
    let prefix = chars_of("chapter ");
    if !chars_occur_at(&l, &prefix, 0) {
        return (t.to_owned(), None);
    }
    let sep = chars_of(" - ");
    let k = match find_chars(&v, &sep) {
        Some(k) => k,
        None => return (t.to_owned(), None),
    };
    proof {
        reveal_strlit("chapter ");
        reveal_strlit(" - ");
        reveal_strlit("chapter - ");
        let lt = lower_chars(t@);
        assert(occurs_at(t@, " - "@, k as int));
        assert(t@.subrange(k as int, k + 3) == " - "@);
        assert(t@.subrange(k as int, k + 3)[0] == t@[k as int]);
        assert(t@[k as int] == ' ');
        assert(lt[k as int] == ' ');
        if k < 8 {
            assert(lt.subrange(0, 8) == "chapter "@);
            assert(lt[k as int] == "chapter "@[k as int]);
            assert(k == 7);
            assert(t@.subrange(7, 10)[1] == t@[8]);
            assert(t@.subrange(7, 10)[2] == t@[9]);
            assert(t@[8] == '-' && t@[9] == ' ');
            assert(lt.subrange(0, 10) =~= "chapter - "@);
            assert(false);
        }
    }
    let number_text = t.substring_char(8, k);
    let number = trim_str(number_text);
    let nv = chars_of(number);
    if nv.len() == 0 {
        return (t.to_owned(), None);
    }
    if !is_chapter_number_chars(&nv) {
        return (t.to_owned(), None);
    }
    assert(k + 3 <= v.len());
    let rest = t.substring_char(k + 3, v.len());
    assert(rest@ =~= t@.skip(k + 3));
    (trim_str(rest).to_owned(), Some(number.to_owned()))
}

/// The title that an archive stem names.
pub open spec fn archive_stem_title(stem: Seq<char>) -> Seq<char> {
    let (t, n) = stripped_chapter_prefix(stem);
    match n {
        Some(n) => trim(title_without_number(t, n)),
        None => trim(t),
    }
}

/// The title of a local manga derived from an archive's file stem:
/// `Chapter 001 - Example Manga 001` gives `Example Manga`.
pub fn title_from_archive_stem(stem: &str) -> (r: String)
    requires
        !chapter_prefix_overlaps(stem@),
    ensures
        r@ == archive_stem_title(stem@),
{
    let (title, number) = strip_chapter_prefix(stem);
    match number {
        Some(n) => {
            let t = strip_matching_trailing_number(title.as_str(), n.as_str());
            trim_str(t.as_str()).to_owned()
        },
        None => trim_str(title.as_str()).to_owned(),
    }
}

/// `str::replace`: every non-overlapping occurrence of `pat`, from the left,
/// replaced by `rep`.
pub open spec fn replace_all(s: Seq<char>, pat: Seq<char>, rep: Seq<char>) -> Seq<char>
    decreases s.len(),
{
    if pat.len() == 0 || s.len() < pat.len() {
        s
    } else if s.take(pat.len() as int) == pat {
        rep + replace_all(s.skip(pat.len() as int), pat, rep)
    } else {
        seq![s[0]] + replace_all(s.drop_first(), pat, rep)
    }
}

/// Replaces every occurrence of a non-empty pattern.
pub fn replace_all_chars(v: &[char], pat: &str, rep: &str) -> (r: Vec<char>)
    requires
        pat@.len() > 0,
    ensures
        r@ == replace_all(v@, pat@, rep@),
{
    let p = chars_of(pat);
    let q = chars_of(rep);
    let mut out: Vec<char> = Vec::new();
    let mut i: usize = 0;
    assert(v@.skip(0) =~= v@);
    while i < v.len()
        invariant
            i <= v@.len(),
            p@ == pat@,
            q@ == rep@,
            p@.len() > 0,
            replace_all(v@, pat@, rep@) == out@ + replace_all(v@.skip(i as int), pat@, rep@),
        decreases v.len() - i,
    {
        let ghost rest = v@.skip(i as int);
        if chars_occur_at(v, &p, i) {
            assert(rest.take(p@.len() as int) =~= v@.subrange(i as int, i + p@.len()));
            assert(rest.skip(p@.len() as int) =~= v@.skip(i + p@.len()));
            let mut k: usize = 0;
            let ghost before = out@;
            while k < q.len()
                invariant
                    k <= q@.len(),
                    out@ == before + q@.subrange(0, k as int),
                decreases q.len() - k,
            {
                out.push(q[k]);
                assert(q@.subrange(0, k + 1) =~= q@.subrange(0, k as int).push(q@[k as int]));
                k += 1;
            }
            assert(q@.subrange(0, q@.len() as int) =~= q@);
            assert(out@ + replace_all(v@.skip(i + p@.len()), pat@, rep@) =~= before + (rep@
                + replace_all(v@.skip(i + p@.len()), pat@, rep@)));
            i += p.len();
        } else {
            proof {
                if rest.len() >= p@.len() {
                    assert(rest.take(p@.len() as int) =~= v@.subrange(i as int, i + p@.len()));
                }
            }
            assert(rest.drop_first() =~= v@.skip(i + 1));
            let ghost before = out@;
            out.push(v[i]);
            assert(out@ + replace_all(v@.skip(i + 1), pat@, rep@) =~= before + (seq![v@[i as int]]
                + replace_all(v@.skip(i + 1), pat@, rep@)));
            i += 1;
        }
    }
    assert(v@.skip(i as int) =~= Seq::<char>::empty());
    assert(out@ + Seq::<char>::empty() =~= out@);
    out
}

/// The five predefined XML entities replaced, one after the other, in the
/// order `&amp;`, `&lt;`, `&gt;`, `&quot;`, `&apos;`.
pub open spec fn unescaped_xml(v: Seq<char>) -> Seq<char> {
    replace_all(
        replace_all(
            replace_all(
                replace_all(replace_all(v, "&amp;"@, "&"@), "&lt;"@, "<"@),
                "&gt;"@,
                ">"@,
            ),
            "&quot;"@,
            "\""@,
        ),
        "&apos;"@,
        "'"@,
    )
}

/// Replaces the predefined XML entities of a text.
pub fn unescape_minimal_xml(value: &str) -> (r: String)
    ensures
        r@ == unescaped_xml(value@),
{
    proof {
        reveal_strlit("&amp;");
        reveal_strlit("&lt;");
        reveal_strlit("&gt;");
        reveal_strlit("&quot;");
        reveal_strlit("&apos;");
    }
    let v = chars_of(value);
    let a = replace_all_chars(&v, "&amp;", "&");
    let b = replace_all_chars(&a, "&lt;", "<");
    let c = replace_all_chars(&b, "&gt;", ">");
    let d = replace_all_chars(&c, "&quot;", "\"");
    let e = replace_all_chars(&d, "&apos;", "'");
    string_from_chars(&e)
}

/// The text of the first `<tag>...</tag>` element of an XML text, unescaped.
pub open spec fn xml_tag_text(text: Seq<char>, tag: Seq<char>) -> Option<Seq<char>> {
    let open = "<"@ + tag + ">"@;
    let close = "</"@ + tag + ">"@;
    match find(text, open) {
        None => None,
        Some(i) => {
            let start = i + open.len();
            match find(text.skip(start), close) {
                None => None,
                Some(j) => Some(unescaped_xml(text.subrange(start, start + j))),
            }
        },
    }
}

/// The text of the first `<tag>...</tag>` element of an XML text.
pub fn extract_xml_tag_text(text: &str, tag: &str) -> (r: Option<String>)
    ensures
        opt_view(r) == xml_tag_text(text@, tag@),
{
    let mut open = "<".to_owned();
    open.append(tag);
    open.append(">");
    let mut close = "</".to_owned();
    close.append(tag);
    close.append(">");
    let v = chars_of(text);
    let o = chars_of(open.as_str());
    let c = chars_of(close.as_str());
    let i = match find_chars(&v, &o) {
        Some(i) => i,
        None => return None,
    };
    assert(i + o@.len() <= v@.len());
    assert(v@.len() == v.len());
    let start = i + o.len();
    let rest = sub_chars(&v, start, v.len());
    assert(rest@ =~= text@.skip(start as int));
    let j = match find_chars(&rest, &c) {
        Some(j) => j,
        None => return None,
    };
    let inner = text.substring_char(start, start + j);
    Some(unescape_minimal_xml(inner))
}

/// What `std::str::from_utf8` reads from bytes: their text when they are
/// valid UTF-8.
#[verifier::external_body]
fn utf8_text(bytes: &[u8]) -> (r: Option<&str>)
    ensures
        r is Some <==> valid_utf8(bytes@),
        r matches Some(s) ==> s@ == decode_utf8(bytes@),
{
    std::str::from_utf8(bytes).ok()
}

/// The manga title of a `ComicInfo.xml`: its `Series`, unless that is
/// `original` in any ASCII case, else its `Title`; trimmed, and `None` when
/// blank or when the bytes are not UTF-8.
pub open spec fn comic_info_title(bytes: Seq<u8>) -> Option<Seq<char>> {
    if !valid_utf8(bytes) {
        None
    } else {
        let t = decode_utf8(bytes);
        let series = match xml_tag_text(t, "Series"@) {
            Some(v) => if eq_ignore_case(v, "original"@) {
                None
            } else {
                Some(v)
            },
            None => None,
        };
        let chosen = match series {
            Some(v) => Some(v),
            None => xml_tag_text(t, "Title"@),
        };
        match chosen {
            Some(v) => if trim(v).len() > 0 {
                Some(trim(v))
            } else {
                None
            },
            None => None,
        }
    }
}

/// The manga title that a `ComicInfo.xml` gives.
pub fn local_manga_title_from_comic_info(bytes: &[u8]) -> (r: Option<String>)
    ensures
        opt_view(r) == comic_info_title(bytes@),
{
    let text = match utf8_text(bytes) {
        Some(t) => t,
        None => return None,
    };
    let series = match extract_xml_tag_text(text, "Series") {
        Some(v) => {
            let vc = chars_of(v.as_str());
            if eq_ignore_case_str(&vc, "original") {
                None
            } else {
                Some(v)
            }
        },
        None => None,
    };
    let chosen = match series {
        Some(v) => Some(v),
        None => extract_xml_tag_text(text, "Title"),
    };
    match chosen {
        Some(v) => {
            let t = trim_str(v.as_str());
            if t.unicode_len() > 0 {
                Some(t.to_owned())
            } else {
                None
            }
        },
        None => None,
    }
}

/// A `ComicInfo.xml` whose `<Series>` is neither blank nor `original` (in any
/// ASCII case) gives that series, trimmed, whatever its `<Title>` says.
pub proof fn comic_info_series_comes_first(bytes: Seq<u8>, series: Seq<char>)
    requires
        valid_utf8(bytes),
        xml_tag_text(decode_utf8(bytes), "Series"@) == Some(series),
        lower_chars(series) != lower_chars("original"@),
        trim(series).len() > 0,
    ensures
        comic_info_title(bytes) == Some(trim(series)),
{
}

/// A `ComicInfo.xml` without a `<Series>`, or whose series is `original` (in
/// any ASCII case), gives its `<Title>`, trimmed, when that is not blank.
pub proof fn comic_info_falls_back_to_title(bytes: Seq<u8>, title: Seq<char>)
    requires
        valid_utf8(bytes),
        match xml_tag_text(decode_utf8(bytes), "Series"@) {
            Some(series) => lower_chars(series) == lower_chars("original"@),
            None => true,
        },
        xml_tag_text(decode_utf8(bytes), "Title"@) == Some(title),
        trim(title).len() > 0,
    ensures
        comic_info_title(bytes) == Some(trim(title)),
{
}

/// A title read from a `ComicInfo.xml` is never blank and has no whitespace
/// at either end.
pub proof fn comic_info_titles_are_trimmed(bytes: Seq<u8>)
    ensures
        comic_info_title(bytes) matches Some(t) ==> t.len() > 0 && t == trim(t),
{
    assert forall|v: Seq<char>| #[trigger] trim(trim(v)) == trim(v) by {
        lemma_trim_twice(v);
    }
}

proof fn lemma_trim_start_first(s: Seq<char>)
    ensures
        trim_start(s).len() > 0 ==> !is_whitespace(trim_start(s)[0]),
    decreases s.len(),
{
    if s.len() > 0 && is_whitespace(s[0]) {
        lemma_trim_start_first(s.drop_first());
    }
}

proof fn lemma_trim_end_ends(s: Seq<char>)
    ensures
        trim_end(s).len() > 0 ==> !is_whitespace(trim_end(s).last()) && trim_end(s)[0] == s[0],
    decreases s.len(),
{
    if s.len() > 0 && is_whitespace(s.last()) {
        lemma_trim_end_ends(s.drop_last());
        if trim_end(s.drop_last()).len() > 0 {
            assert(s.drop_last()[0] == s[0]);
        }
    }
}

/// Trimming trimmed text changes nothing.
proof fn lemma_trim_twice(v: Seq<char>)
    ensures
        trim(trim(v)) == trim(v),
{
    let a = trim_start(v);
    let t = trim_end(a);
    lemma_trim_start_first(v);
    lemma_trim_end_ends(a);
    if t.len() > 0 {
        assert(trim_start(t) == t);
        assert(trim_end(t) == t);
    } else {
        assert(trim_start(t) == t);
        assert(trim_end(t) == t);
    }
}

/// The views of a sequence of optional strings.
pub open spec fn opt_string_views(v: Seq<Option<String>>) -> Seq<Option<Seq<char>>> {
    v.map_values(|o: Option<String>| opt_view(o))
}

/// The views of a sequence of string slices.
pub open spec fn str_views(v: Seq<&str>) -> Seq<Seq<char>> {
    v.map_values(|s: &str| s@)
}

/// What `serde_json` reads under the object member `outer` of a JSON
/// document: for each key, the string held there when it is a JSON string;
/// `None` when the bytes are not JSON or have no member `outer`.
pub uninterp spec fn json_member_field_strings(
    body: Seq<u8>,
    outer: Seq<char>,
    keys: Seq<Seq<char>>,
) -> Option<Seq<Option<Seq<char>>>>;

/// Parses `body` with `serde_json::from_slice`, takes its member `outer`
/// (`Value::get`) and, for each key, that member's field as `Value::get` and
/// `Value::as_str` give it. The contract names the result and claims nothing
/// of JSON syntax.
#[verifier::external_body]
fn json_member_fields(body: &[u8], outer: &str, keys: &[&str]) -> (r: Option<Vec<Option<String>>>)
    ensures
        match r {
            Some(v) => json_member_field_strings(body@, outer@, str_views(keys@)) == Some(
                opt_string_views(v@),
            ) && v@.len() == keys@.len(),
            None => json_member_field_strings(body@, outer@, str_views(keys@)) is None,
        },
{
    let value = serde_json::from_slice::<serde_json::Value>(body).ok()?;
    let member = value.get(outer)?;
    Some(keys.iter().map(|key| member.get(*key).and_then(|v| v.as_str()).map(|s| s.to_string())).collect())
}

/// The first entry that is a string with something besides whitespace, trimmed.
pub open spec fn first_nonblank(e: Seq<Option<Seq<char>>>) -> Option<Seq<char>>
    decreases e.len(),
{
    if e.len() == 0 {
        None
    } else {
        match e[0] {
            Some(v) => if trim(v).len() > 0 {
                Some(trim(v))
            } else {
                first_nonblank(e.drop_first())
            },
            None => first_nonblank(e.drop_first()),
        }
    }
}

/// The keys of the title object of a `meta.json`, in order of preference.
pub open spec fn meta_title_keys() -> Seq<Seq<char>> {
    seq!["japanese"@, "english"@, "pretty"@, "romaji"@]
}

/// The manga title of a `meta.json`: the first non-blank of the `japanese`,
/// `english`, `pretty` and `romaji` strings of its `title` object, trimmed.
pub open spec fn meta_json_title(bytes: Seq<u8>) -> Option<Seq<char>> {
    match json_member_field_strings(bytes, "title"@, meta_title_keys()) {
        None => None,
        Some(e) => first_nonblank(e),
    }
}

/// The first entry that is a string with something besides whitespace, trimmed.
pub fn first_nonblank_entry(entries: &Vec<Option<String>>) -> (r: Option<String>)
    ensures
        opt_view(r) == first_nonblank(opt_string_views(entries@)),
{
    let mut i: usize = 0;
    assert(opt_string_views(entries@).skip(0) =~= opt_string_views(entries@));
    while i < entries.len()
        invariant
            i <= entries@.len(),
            first_nonblank(opt_string_views(entries@)) == first_nonblank(
                opt_string_views(entries@).skip(i as int),
            ),
        decreases entries.len() - i,
    {
        let ghost rest = opt_string_views(entries@).skip(i as int);
        assert(rest[0] == opt_view(entries@[i as int]));
        assert(rest.drop_first() =~= opt_string_views(entries@).skip(i + 1));
        if let Some(v) = &entries[i] {
            let t = trim_str(v.as_str());
            if t.unicode_len() > 0 {
                return Some(t.to_owned());
            }
        }
        i += 1;
    }
    None
}

/// The manga title that a `meta.json` gives.
pub fn local_manga_title_from_meta_json(bytes: &[u8]) -> (r: Option<String>)
    ensures
        opt_view(r) == meta_json_title(bytes@),
{
    let mut keys: Vec<&str> = Vec::new();
    keys.push("japanese");
    keys.push("english");
    keys.push("pretty");
    keys.push("romaji");
    assert(str_views(keys@) =~= meta_title_keys());
    match json_member_fields(bytes, "title", keys.as_slice()) {
        None => None,
        Some(e) => first_nonblank_entry(&e),
    }
}

/// The 64-bit FNV-1a hash of a byte sequence.
pub open spec fn fnv1a(bytes: Seq<u8>) -> u64
    decreases bytes.len(),
{
    if bytes.len() == 0 {
        0xcbf29ce484222325u64
    } else {
        vstd::wrapping::u64_specs::wrapping_mul(
            fnv1a(bytes.drop_last()) ^ (bytes.last() as u64),
            0x100000001b3u64,
        )
    }
}

/// The fingerprint of page bytes: their FNV-1a hash as 16 lowercase hex digits.
pub fn fingerprint_bytes_64(bytes: &[u8]) -> (r: String)
    ensures
        r@ == hex_digits(fnv1a(bytes@) as nat, 16),
{
    let mut hash: u64 = 0xcbf29ce484222325u64;
    let mut i: usize = 0;
    while i < bytes.len()
        invariant
            i <= bytes@.len(),
            hash == fnv1a(bytes@.take(i as int)),
        decreases bytes.len() - i,
    {
        assert(bytes@.take(i + 1).drop_last() =~= bytes@.take(i as int));
        hash = (hash ^ (bytes[i] as u64)).wrapping_mul(0x100000001b3u64);
        i += 1;
    }
    assert(bytes@.take(bytes.len() as int) =~= bytes@);
    let mut r = String::new();
    push_hex(&mut r, hash, 16);
    assert(r@ =~= hex_digits(hash as nat, 16));
    r
}

/// The title of a local manga: its `meta.json` title, else its
/// `ComicInfo.xml` title, else the one its archive stem names; trimmed.
pub open spec fn local_manga_title(
    meta: Option<Seq<char>>,
    comic: Option<Seq<char>>,
    stem: Seq<char>,
) -> Seq<char> {
    trim(
        match meta {
            Some(m) => m,
            None => match comic {
                Some(c) => c,
                None => archive_stem_title(stem),
            },
        },
    )
}

/// The folder of a local manga: its title made safe as a folder name, else
/// its archive stem made safe, else `Manga`.
pub open spec fn local_manga_folder(
    meta: Option<Seq<char>>,
    comic: Option<Seq<char>>,
    stem: Seq<char>,
) -> Seq<char> {
    match sanitized_folder_name(local_manga_title(meta, comic, stem)) {
        Some(f) => f,
        None => match sanitized_folder_name(stem) {
            Some(f) => f,
            None => "Manga"@,
        },
    }
}

/// The folder name under which an archive's manga is gathered, from the
/// titles found in the archive and the archive's file stem.
pub fn local_manga_folder_name(
    meta_title: Option<String>,
    comic_title: Option<String>,
    archive_stem: &str,
) -> (r: String)
    requires
        !chapter_prefix_overlaps(archive_stem@),
    ensures
        r@ == local_manga_folder(opt_view(meta_title), opt_view(comic_title), archive_stem@),
{
    let fallback = title_from_archive_stem(archive_stem);
    let chosen = match meta_title {
        Some(m) => m,
        None => match comic_title {
            Some(c) => c,
            None => fallback,
        },
    };
    let title = trim_str(chosen.as_str());
    match sanitize_local_manga_folder_name(title) {
        Some(f) => f,
        None => match sanitize_local_manga_folder_name(archive_stem) {
            Some(f) => f,
            None => "Manga".to_owned(),
        },
    }
}

} // verus!
