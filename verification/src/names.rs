//! Names of the files inside manga archives and of the archives themselves.

use vstd::prelude::*;
use vstd::string::*;
use crate::natural::{naturally_sorted, ranked_as, sort_names, sort_naturally};
use crate::text::{
    chars_eq_str, chars_of, eq_ignore_case, eq_ignore_case_str, last_index, last_index_of,
    lower_chars, lower_vec, opt_view, split_bounds, split_on, sub_chars, trim, trim_bounds,
};

verus! {

/// The last `/`- or `\`-separated part of an archive entry name.
pub open spec fn basename(s: Seq<char>) -> Seq<char> {
    split_on(s, '/', '\\').last()
}

/// The extension of an archive entry: the trimmed text after the last `.` of
/// its base name, when that is not empty.
pub open spec fn entry_extension(name: Seq<char>) -> Option<Seq<char>> {
    let b = basename(name);
    match last_index(b, '.') {
        None => None,
        Some(k) => {
            let e = trim(b.skip(k + 1));
            if e.len() > 0 {
                Some(e)
            } else {
                None
            }
        },
    }
}

/// The extensions of the image formats that local manga pages can have.
pub open spec fn is_image_extension(lower: Seq<char>) -> bool {
    lower == "jpg"@ || lower == "jpeg"@ || lower == "png"@ || lower == "webp"@ || lower == "gif"@
        || lower == "bmp"@ || lower == "avif"@ || lower == "jxl"@
}

/// An archive entry is an image page when its extension, ignoring ASCII case,
/// is one of the image formats.
pub open spec fn is_image_entry(name: Seq<char>) -> bool {
    match entry_extension(name) {
        Some(e) => is_image_extension(lower_chars(e)),
        None => false,
    }
}

/// The names of system files that archive tools leave behind.
pub open spec fn is_ignored_component(c: Seq<char>) -> bool {
    eq_ignore_case(c, "__MACOSX"@) || eq_ignore_case(c, ".DS_Store"@) || eq_ignore_case(
        c,
        "Thumbs.db"@,
    )
}

/// An archive entry is ignored when any part of its path is such a system file.
pub open spec fn is_ignored_entry(name: Seq<char>) -> bool {
    exists|k: int|
        0 <= k < split_on(name, '/', '\\').len() && is_ignored_component(
            #[trigger] split_on(name, '/', '\\')[k],
        )
}

/// The base name of an archive entry.
pub fn archive_entry_basename(name: &str) -> (r: &str)
    ensures
        r@ == basename(name@),
{
    let v = chars_of(name);
    let b = split_bounds(&v, '/', '\\');
    let (x, y) = b[b.len() - 1];
    name.substring_char(x, y)
}

/// The extension of an archive entry name.
pub fn extension_for_archive_entry(name: &str) -> (r: Option<&str>)
    ensures
        match r {
            Some(e) => entry_extension(name@) == Some(e@),
            None => entry_extension(name@) is None,
        },
{
    let v = chars_of(name);
    let b = split_bounds(&v, '/', '\\');
    let (x, y) = b[b.len() - 1];
    let base = sub_chars(&v, x, y);
    let k = match last_index_of(&base, '.') {
        Some(k) => k,
        None => return None,
    };
    let after = sub_chars(&base, k + 1, base.len());
    let (s, e) = trim_bounds(&after);
    if s == e {
        return None;
    }
    assert(after@ =~= base@.skip(k + 1));
    assert(v@.subrange(x + k + 1 + s, x + k + 1 + e) =~= after@.subrange(s as int, e as int));
    Some(name.substring_char(x + k + 1 + s, x + k + 1 + e))
}

/// Whether an archive entry is an image page, judged by its extension.
pub fn is_supported_local_manga_image(name: &str) -> (r: bool)
    ensures
        r == is_image_entry(name@),
{
    match extension_for_archive_entry(name) {
        None => false,
        Some(e) => {
            let ev = chars_of(e);
            let l = lower_vec(&ev);
            chars_eq_str(&l, "jpg") || chars_eq_str(&l, "jpeg") || chars_eq_str(&l, "png")
                || chars_eq_str(&l, "webp") || chars_eq_str(&l, "gif") || chars_eq_str(&l, "bmp")
                || chars_eq_str(&l, "avif") || chars_eq_str(&l, "jxl")
        },
    }
}

/// Whether an archive entry lies in, or is, a system file left by archive tools.
pub fn is_ignored_archive_entry(name: &str) -> (r: bool)
    ensures
        r == is_ignored_entry(name@),
{
    let v = chars_of(name);
    let b = split_bounds(&v, '/', '\\');
    let mut k: usize = 0;
    while k < b.len()
        invariant
            k <= b@.len(),
            b@.len() == split_on(v@, '/', '\\').len(),
            v@ == name@,
            forall|j: int|
                0 <= j < b@.len() ==> (#[trigger] b@[j]).0 <= b@[j].1 <= v@.len() && v@.subrange(
                    b@[j].0 as int,
                    b@[j].1 as int,
                ) == split_on(v@, '/', '\\')[j],
            forall|j: int| 0 <= j < k ==> !is_ignored_component(#[trigger] split_on(v@, '/', '\\')[j]),
        decreases b.len() - k,
    {
        let (x, y) = b[k];
        let c = sub_chars(&v, x, y);
        if eq_ignore_case_str(&c, "__MACOSX") || eq_ignore_case_str(&c, ".DS_Store")
            || eq_ignore_case_str(&c, "Thumbs.db") {
            assert(is_ignored_component(split_on(v@, '/', '\\')[k as int]));
            return true;
        }
        k += 1;
    }
    false
}

/// The extension of a file name as `Path::extension` gives it: the text after
/// the last `.`, unless that `.` is the first character.
pub open spec fn file_extension(f: Seq<char>) -> Option<Seq<char>> {
    match last_index(f, '.') {
        Some(k) => if k > 0 {
            Some(f.skip(k + 1))
        } else {
            None
        },
        None => None,
    }
}

/// A local manga archive is a `.zip` or `.cbz` file, ignoring ASCII case.
pub open spec fn is_archive_file_name(f: Seq<char>) -> bool {
    match file_extension(f) {
        Some(e) => lower_chars(e) == "zip"@ || lower_chars(e) == "cbz"@,
        None => false,
    }
}

/// Whether a file, given its file name, is a local manga archive.
pub fn is_local_manga_archive(file_name: &str) -> (r: bool)
    ensures
        r == is_archive_file_name(file_name@),
{
    let v = chars_of(file_name);
    match last_index_of(&v, '.') {
        Some(k) => {
            if k == 0 {
                return false;
            }
            assert(k < v.len());
            let e = sub_chars(&v, k + 1, v.len());
            assert(e@ =~= v@.skip(k + 1));
            let l = lower_vec(&e);
            chars_eq_str(&l, "zip") || chars_eq_str(&l, "cbz")
        },
        None => false,
    }
}

/// The file name by which an archive sorts: its name, or nothing.
pub fn path_file_name_for_sort(file_name: Option<&str>) -> (r: String)
    ensures
        r@ == match file_name {
            Some(f) => f@,
            None => Seq::<char>::empty(),
        },
{
    match file_name {
        Some(f) => f.to_owned(),
        None => String::new(),
    }
}

/// An entry of an archive: its name and whether it is a directory.
pub struct ArchiveEntry {
    pub name: String,
    pub is_dir: bool,
}

/// The archive entries that are image pages: not directories, with an image
/// extension, and not system files.
pub open spec fn is_page_entry(e: ArchiveEntry) -> bool {
    !e.is_dir && is_image_entry(e.name@) && !is_ignored_entry(e.name@)
}

/// The names of the page entries, in archive order.
pub open spec fn page_entry_names(entries: Seq<ArchiveEntry>) -> Seq<String>
    decreases entries.len(),
{
    if entries.len() == 0 {
        Seq::<String>::empty()
    } else {
        let prev = page_entry_names(entries.drop_last());
        if is_page_entry(entries.last()) {
            prev.push(entries.last().name)
        } else {
            prev
        }
    }
}

/// The image pages of an archive, in natural order of their names.
pub fn list_archive_image_entries(entries: &Vec<ArchiveEntry>) -> (r: Vec<String>)
    ensures
        r@.to_multiset() == page_entry_names(entries@).to_multiset(),
        naturally_sorted(sort_names(r@)),
        forall|key: Seq<char>| #[trigger] r@.filter(ranked_as(key)) == page_entry_names(entries@).filter(ranked_as(key)),
{
    let mut names: Vec<String> = Vec::new();
    let mut i: usize = 0;
    while i < entries.len()
        invariant
            i <= entries@.len(),
            names@ == page_entry_names(entries@.take(i as int)),
        decreases entries.len() - i,
    {
        let e = &entries[i];
        assert(entries@.take(i + 1).drop_last() =~= entries@.take(i as int));
        assert(entries@.take(i + 1).last() == entries@[i as int]);
        if !e.is_dir && is_supported_local_manga_image(e.name.as_str())
            && !is_ignored_archive_entry(e.name.as_str()) {
            names.push(e.name.clone());
        }
        i += 1;
    }
    assert(entries@.take(entries.len() as int) =~= entries@);
    sort_naturally(names)
}


/// An entry is the file named `name`: no directory, and its base name equals
/// `name` ignoring ASCII case.
pub open spec fn is_entry_named(e: ArchiveEntry, name: Seq<char>) -> bool {
    !e.is_dir && eq_ignore_case(basename(e.name@), name)
}

/// The first entry, in archive order, that is the file named `name`.
pub open spec fn first_entry_named(entries: Seq<ArchiveEntry>, name: Seq<char>) -> Option<Seq<char>>
    decreases entries.len(),
{
    if entries.len() == 0 {
        None
    } else if is_entry_named(entries[0], name) {
        Some(entries[0].name@)
    } else {
        first_entry_named(entries.drop_first(), name)
    }
}

/// The full name of the first archive entry that is the file with the given
/// base name, such as `ComicInfo.xml` in any folder of the archive.
pub fn archive_entry_named(entries: &Vec<ArchiveEntry>, basename: &str) -> (r: Option<String>)
    ensures
        opt_view(r) == first_entry_named(entries@, basename@),
{
    let mut i: usize = 0;
    assert(entries@.skip(0) =~= entries@);
    while i < entries.len()
        invariant
            i <= entries@.len(),
            first_entry_named(entries@, basename@) == first_entry_named(entries@.skip(i as int), basename@),
        decreases entries.len() - i,
    {
        let e = &entries[i];
        assert(entries@.skip(i as int)[0] == entries@[i as int]);
        assert(entries@.skip(i as int).drop_first() =~= entries@.skip(i + 1));
        if !e.is_dir {
            let b = archive_entry_basename(e.name.as_str());
            let bv = chars_of(b);
            if eq_ignore_case_str(&bv, basename) {
                return Some(e.name.clone());
            }
        }
        i += 1;
    }
    None
}


/// Appending text without either separator extends the last piece.
proof fn lemma_split_on_append_plain(s: Seq<char>, t: Seq<char>, a: char, b: char)
    requires
        forall|i: int| 0 <= i < t.len() ==> t[i] != a && t[i] != b,
    ensures
        split_on(s + t, a, b).len() == split_on(s, a, b).len(),
        split_on(s + t, a, b).last() == split_on(s, a, b).last() + t,
    decreases t.len(),
{
    crate::text::lemma_split_on_nonempty(s, a, b);
    if t.len() == 0 {
        assert(s + t =~= s);
        assert(split_on(s, a, b).last() + t =~= split_on(s, a, b).last());
    } else {
        let t0 = t.drop_last();
        lemma_split_on_append_plain(s, t0, a, b);
        assert((s + t).drop_last() =~= s + t0);
        assert((s + t).last() == t.last());
        assert(split_on(s, a, b).last() + t =~= (split_on(s, a, b).last() + t0).push(t.last()));
    }
}

/// The last `c` of a text followed by `c` and text without `c` is that `c`.
proof fn lemma_last_index_before_plain(s: Seq<char>, c: char, e: Seq<char>)
    requires
        forall|i: int| 0 <= i < e.len() ==> e[i] != c,
    ensures
        last_index(s + seq![c] + e, c) == Some(s.len() as int),
    decreases e.len(),
{
    if e.len() == 0 {
        assert(s + seq![c] + e =~= s.push(c));
    } else {
        lemma_last_index_before_plain(s, c, e.drop_last());
        assert((s + seq![c] + e).drop_last() =~= s + seq![c] + e.drop_last());
        assert((s + seq![c] + e).last() == e.last());
    }
}

/// A word of lowercase ASCII letters.
spec fn lowercase_word(w: Seq<char>) -> bool {
    forall|i: int| 0 <= i < w.len() ==> 'a' <= #[trigger] w[i] && w[i] <= 'z'
}

/// Text that lowercases to lowercase letters is made of ASCII letters.
proof fn lemma_letters_only(e: Seq<char>)
    requires
        lowercase_word(lower_chars(e)),
    ensures
        forall|i: int| 0 <= i < e.len() ==> ('a' <= #[trigger] e[i] && e[i] <= 'z') || ('A' <= e[i]
            && e[i] <= 'Z'),
{
    assert forall|i: int| 0 <= i < e.len() implies ('a' <= #[trigger] e[i] && e[i] <= 'z') || ('A'
        <= e[i] && e[i] <= 'Z') by {
        assert(lower_chars(e)[i] == crate::text::ascii_lower(e[i]));
    }
}

/// The facts about an extension of ASCII letters that the laws below need:
/// the name `prefix.e` has `e` after its last dot, in its base name, untrimmed.
proof fn lemma_letter_extension(prefix: Seq<char>, e: Seq<char>)
    requires
        e.len() > 0,
        lowercase_word(lower_chars(e)),
    ensures
        basename(prefix + "."@ + e) == basename(prefix) + "."@ + e,
        last_index(prefix + "."@ + e, '.') == Some(prefix.len() as int),
        entry_extension(prefix + "."@ + e) == Some(e),
{
    reveal_strlit(".");
    lemma_letters_only(e);
    let t = "."@ + e;
    assert(prefix + "."@ + e =~= prefix + t);
    assert forall|i: int| 0 <= i < t.len() implies t[i] != '/' && t[i] != '\\' by {
        if i > 0 {
            assert(t[i] == e[i - 1]);
        }
    }
    lemma_split_on_append_plain(prefix, t, '/', '\\');
    let b = basename(prefix);
    assert(b + t =~= b + "."@ + e);
    assert forall|i: int| 0 <= i < e.len() implies e[i] != '.' by {}
    assert("."@ =~= seq!['.']);
    lemma_last_index_before_plain(prefix, '.', e);
    lemma_last_index_before_plain(b, '.', e);
    let bb = b + "."@ + e;
    assert(bb.skip(b.len() + 1 as int) =~= e);
    assert(!crate::text::is_whitespace(e[0]));
    assert(!crate::text::is_whitespace(e.last()));
    assert(crate::text::trim_start(e) == e);
    assert(crate::text::trim_end(e) == e);
}

/// An archive entry whose base name ends in `.` and one of the image
/// extensions (jpg, jpeg, png, webp, gif, bmp, avif, jxl), in any ASCII case,
/// is an image page, whatever comes before the dot.
pub proof fn image_entries_are_known_by_their_extension(prefix: Seq<char>, ext: Seq<char>)
    requires
        lower_chars(ext) == "jpg"@ || lower_chars(ext) == "jpeg"@ || lower_chars(ext) == "png"@
            || lower_chars(ext) == "webp"@ || lower_chars(ext) == "gif"@ || lower_chars(ext)
            == "bmp"@ || lower_chars(ext) == "avif"@ || lower_chars(ext) == "jxl"@,
    ensures
        is_image_entry(prefix + "."@ + ext),
{
    reveal_strlit("jpg");
    reveal_strlit("jpeg");
    reveal_strlit("png");
    reveal_strlit("webp");
    reveal_strlit("gif");
    reveal_strlit("bmp");
    reveal_strlit("avif");
    reveal_strlit("jxl");
    assert(lowercase_word(lower_chars(ext)));
    assert(ext.len() == lower_chars(ext).len());
    lemma_letter_extension(prefix, ext);
}

/// The page names of an archive hold every page entry.
proof fn lemma_page_entries_listed(entries: Seq<ArchiveEntry>, i: int)
    requires
        0 <= i < entries.len(),
        is_page_entry(entries[i]),
    ensures
        page_entry_names(entries).contains(entries[i].name),
    decreases entries.len(),
{
    let d = entries.drop_last();
    if i < entries.len() - 1 {
        assert(d[i] == entries[i]);
        lemma_page_entries_listed(d, i);
        let prev = page_entry_names(d);
        let k = choose|k: int| 0 <= k < prev.len() && prev[k] == entries[i].name;
        if is_page_entry(entries.last()) {
            assert(prev.push(entries.last().name)[k] == entries[i].name);
        }
    } else {
        let r = page_entry_names(entries);
        assert(r[r.len() - 1] == entries[i].name);
    }
}

/// A file entry named `x.jpg` (or with another image extension, in any ASCII
/// case) that is no system file is among the listed pages.
pub proof fn image_entries_are_listed(
    entries: Seq<ArchiveEntry>,
    i: int,
    prefix: Seq<char>,
    ext: Seq<char>,
)
    requires
        0 <= i < entries.len(),
        !entries[i].is_dir,
        !is_ignored_entry(entries[i].name@),
        entries[i].name@ == prefix + "."@ + ext,
        lower_chars(ext) == "jpg"@ || lower_chars(ext) == "jpeg"@ || lower_chars(ext) == "png"@
            || lower_chars(ext) == "webp"@ || lower_chars(ext) == "gif"@ || lower_chars(ext)
            == "bmp"@ || lower_chars(ext) == "avif"@ || lower_chars(ext) == "jxl"@,
    ensures
        page_entry_names(entries).contains(entries[i].name),
{
    image_entries_are_known_by_their_extension(prefix, ext);
    lemma_page_entries_listed(entries, i);
}

/// A file name `stem.zip` or `stem.cbz` (any ASCII case) with a stem that is
/// not empty is a local manga archive, whatever dots the stem holds: the
/// extension is the text after the last dot.
pub proof fn archive_names_are_known_by_their_last_extension(stem: Seq<char>, ext: Seq<char>)
    requires
        stem.len() > 0,
        lower_chars(ext) == "zip"@ || lower_chars(ext) == "cbz"@,
    ensures
        is_archive_file_name(stem + "."@ + ext),
{
    reveal_strlit("zip");
    reveal_strlit("cbz");
    assert(lowercase_word(lower_chars(ext)));
    assert(ext.len() == lower_chars(ext).len());
    lemma_letter_extension(stem, ext);
    reveal_strlit(".");
    assert((stem + "."@ + ext).skip(stem.len() + 1 as int) =~= ext);
}

} // verus!
