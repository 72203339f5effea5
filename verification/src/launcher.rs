//! Small decisions of the launcher: option values, platform names, process
//! and file checks, and the names it gives to files and keys.

use vstd::prelude::*;
use vstd::string::*;
use crate::names::entry_extension;
use crate::names::extension_for_archive_entry;
use crate::numbers::{
    all_digits, decimal, lemma_decimal_reads_back, lemma_signed_decimal_parses, parse_i32_spec,
    parse_int_chars, push_decimal, push_signed_decimal, signed_decimal,
};
use crate::text::{
    chars_eq_str, chars_occur_at, chars_of, contains, contains_chars, ends_with, lower_chars,
    lower_vec, split, split_bounds, starts_with, string_from_chars, sub_chars, trim, trim_bounds,
    trim_end, trim_start, trim_str, is_whitespace,
};
use crate::titles::{replace_all, replace_all_chars};

verus! {

/// The boolean that an option value spells: `1`, `true`, `yes`, `on` or `0`,
/// `false`, `no`, `off`, in any letter case; otherwise an error that quotes
/// the value. Only ASCII letters lowercase into these words, so ASCII case
/// folding decides alone.
pub open spec fn boolish(value: Seq<char>) -> Result<bool, Seq<char>> {
    let l = lower_chars(value);
    if l == "1"@ || l == "true"@ || l == "yes"@ || l == "on"@ {
        Ok(true)
    } else if l == "0"@ || l == "false"@ || l == "no"@ || l == "off"@ {
        Ok(false)
    } else {
        Err("Invalid boolean value: "@ + value)
    }
}

/// Parses a boolean option value.
pub fn parse_boolish(value: &str) -> (r: Result<bool, String>)
    ensures
        match r {
            Ok(b) => boolish(value@) == Ok::<bool, Seq<char>>(b),
            Err(e) => boolish(value@) == Err::<bool, Seq<char>>(e@),
        },
{
    let v = chars_of(value);
    let l = lower_vec(&v);
    if chars_eq_str(&l, "1") || chars_eq_str(&l, "true") || chars_eq_str(&l, "yes") || chars_eq_str(
        &l,
        "on",
    ) {
        Ok(true)
    } else if chars_eq_str(&l, "0") || chars_eq_str(&l, "false") || chars_eq_str(&l, "no")
        || chars_eq_str(&l, "off") {
        Ok(false)
    } else {
        let mut e = "Invalid boolean value: ".to_owned();
        e.append(value);
        Err(e)
    }
}

/// The release asset name for an operating system and CPU architecture, as
/// `std::env::consts` names them; `None` for a platform without releases.
pub open spec fn asset_target(os: Seq<char>, arch: Seq<char>) -> Option<Seq<char>> {
    if os == "windows"@ {
        Some("Windows-x64"@)
    } else if os == "macos"@ && arch == "aarch64"@ {
        Some("macOS-Silicon"@)
    } else if os == "macos"@ && arch == "x86_64"@ {
        Some("macOS-Intel"@)
    } else if os == "linux"@ && arch == "aarch64"@ {
        Some("Linux-arm64.tar"@)
    } else if os == "linux"@ && arch == "x86_64"@ {
        Some("Linux-amd64.tar"@)
    } else {
        None
    }
}

/// The release asset name for a platform.
pub fn get_asset_target_string(os: &str, arch: &str) -> (r: Option<&'static str>)
    ensures
        match r {
            Some(s) => asset_target(os@, arch@) == Some(s@),
            None => asset_target(os@, arch@) is None,
        },
{
    let o = chars_of(os);
    let a = chars_of(arch);
    if chars_eq_str(&o, "windows") {
        Some("Windows-x64")
    } else if chars_eq_str(&o, "macos") && chars_eq_str(&a, "aarch64") {
        Some("macOS-Silicon")
    } else if chars_eq_str(&o, "macos") && chars_eq_str(&a, "x86_64") {
        Some("macOS-Intel")
    } else if chars_eq_str(&o, "linux") && chars_eq_str(&a, "aarch64") {
        Some("Linux-arm64.tar")
    } else if chars_eq_str(&o, "linux") && chars_eq_str(&a, "x86_64") {
        Some("Linux-amd64.tar")
    } else {
        None
    }
}

/// The path under which a local manga file is opened: on Windows a verbatim
/// (`\\?\`) path, so that long names work; elsewhere the path itself.
pub open spec fn fs_path(path: Seq<char>, windows: bool, absolute: bool) -> Seq<char> {
    if !windows || starts_with(path, "\\\\?\\"@) {
        path
    } else if starts_with(path, "\\\\"@) {
        "\\\\?\\UNC\\"@ + path.skip(2)
    } else if absolute {
        "\\\\?\\"@ + path
    } else {
        path
    }
}

/// The path under which a local manga file is opened, given the path's text,
/// whether this is Windows and whether the path is absolute.
pub fn local_manga_fs_path(path: &str, windows: bool, absolute: bool) -> (r: String)
    ensures
        r@ == fs_path(path@, windows, absolute),
{
    if !windows {
        return path.to_owned();
    }
    let v = chars_of(path);
    let verbatim = chars_of("\\\\?\\");
    if chars_occur_at(&v, &verbatim, 0) {
        return path.to_owned();
    }
    let unc = chars_of("\\\\");
    if chars_occur_at(&v, &unc, 0) {
        proof {
            reveal_strlit("\\\\");
        }
        let mut r = "\\\\?\\UNC\\".to_owned();
        r.append(path.substring_char(2, v.len()));
        return r;
    }
    if absolute {
        let mut r = "\\\\?\\".to_owned();
        r.append(path);
        r
    } else {
        path.to_owned()
    }
}

/// The process id that a pid file holds: its trimmed text as an `i32`;
/// `None` when blank or not a number.
pub open spec fn pid_in_text(text: Seq<char>) -> Option<int> {
    let t = trim(text);
    if t.len() == 0 {
        None
    } else {
        parse_i32_spec(t)
    }
}

/// The process id written in a pid file's text.
pub fn pid_from_file_text(text: &str) -> (r: Option<i32>)
    ensures
        match r {
            Some(p) => pid_in_text(text@) == Some(p as int),
            None => pid_in_text(text@) is None,
        },
{
    let t = trim_str(text);
    let v = chars_of(t);
    if v.len() == 0 {
        return None;
    }
    match parse_int_chars(&v, true, i32::MIN as i128, i32::MAX as i128) {
        Some(x) => Some(x as i32),
        None => None,
    }
}

/// A pid file holding a process id written in decimal reads back as that id.
pub proof fn written_pid_reads_back(pid: int)
    requires
        i32::MIN <= pid <= i32::MAX,
    ensures
        pid_in_text(signed_decimal(pid)) == Some(pid),
{
    let t = signed_decimal(pid);
    let d = decimal(if pid < 0 { (-pid) as nat } else { pid as nat });
    lemma_decimal_reads_back(if pid < 0 { (-pid) as nat } else { pid as nat });
    assert(all_digits(d));
    assert(t.len() > 0);
    assert(!is_whitespace(t[0])) by {
        if pid >= 0 {
            assert(t[0] == d[0]);
        }
    }
    assert(!is_whitespace(t.last())) by {
        assert(t.last() == d.last());
        assert(d.last() == d[d.len() - 1]);
    }
    assert(trim_start(t) == t);
    assert(trim_end(t) == t);
    lemma_signed_decimal_parses(pid, i32::MIN as int, i32::MAX as int);
}

/// A process command line (NUL-separated) runs the Suwayomi server jar.
pub open spec fn runs_suwayomi(cmdline: Seq<char>) -> bool {
    contains(replace_all(cmdline, "\0"@, " "@), "Suwayomi-Server.jar"@)
}

/// Whether a process command line runs the Suwayomi server jar.
pub fn cmdline_runs_suwayomi(cmdline: &str) -> (r: bool)
    ensures
        r == runs_suwayomi(cmdline@),
{
    proof {
        reveal_strlit("\0");
    }
    let v = chars_of(cmdline);
    let spaced = replace_all_chars(&v, "\0", " ");
    let jar = chars_of("Suwayomi-Server.jar");
    contains_chars(&spaced, &jar)
}

/// A local file map that still records verbatim Windows paths (`zip:\\?\`)
/// has to be written again.
pub open spec fn file_map_is_stale(text: Seq<char>) -> bool {
    contains(text, "zip:\\\\\\\\?\\\\"@)
}

/// Whether a local file map's text has to be written again.
pub fn file_map_text_is_stale(text: &str) -> (r: bool)
    ensures
        r == file_map_is_stale(text@),
{
    let v = chars_of(text);
    let p = chars_of("zip:\\\\\\\\?\\\\");
    contains_chars(&v, &p)
}

/// A file is a cover image when its name starts with `cover.`, ignoring ASCII case.
pub open spec fn is_cover_name(name: Seq<char>) -> bool {
    starts_with(lower_chars(name), "cover."@)
}

/// Whether a file name is that of a cover image.
pub fn is_cover_file_name(name: &str) -> (r: bool)
    ensures
        r == is_cover_name(name@),
{
    let v = chars_of(name);
    let l = lower_vec(&v);
    let p = chars_of("cover.");
    chars_occur_at(&l, &p, 0)
}

/// The cover file written for a local manga: `cover.` and the first page's
/// extension in lowercase, or `jpg` when it has none.
pub open spec fn cover_name(first_page: Seq<char>) -> Seq<char> {
    "cover."@ + match entry_extension(first_page) {
        Some(e) => lower_chars(e),
        None => "jpg"@,
    }
}

/// The file name of the cover written from a manga's first page.
pub fn cover_file_name(first_page: &str) -> (r: String)
    ensures
        r@ == cover_name(first_page@),
{
    let mut r = "cover.".to_owned();
    match extension_for_archive_entry(first_page) {
        Some(e) => {
            let v = chars_of(e);
            let l = lower_vec(&v);
            let s = string_from_chars(&l);
            r.append(s.as_str());
        },
        None => r.append("jpg"),
    }
    r
}

/// The key of a page in the local file map: `zip:<archive path>::<entry>`.
pub fn page_file_key(archive_path: &str, entry: &str) -> (r: String)
    ensures
        r@ == "zip:"@ + archive_path@ + "::"@ + entry@,
{
    let mut r = "zip:".to_owned();
    r.append(archive_path);
    r.append("::");
    r.append(entry);
    r
}

/// The key of a chapter in the local file map: `<folder>/<archive>`.
pub fn chapter_file_key(folder_name: &str, archive_name: &str) -> (r: String)
    ensures
        r@ == folder_name@ + "/"@ + archive_name@,
{
    let mut r = folder_name.to_owned();
    r.append("/");
    r.append(archive_name);
    r
}

/// The host to open in a browser: `localhost` for the unspecified address.
pub open spec fn browser_host(host: Seq<char>) -> Seq<char> {
    if host == "0.0.0.0"@ {
        "localhost"@
    } else {
        host
    }
}

/// The address of the web interface, given the bound host's text and port.
pub fn web_ui_url(host: &str, port: u16) -> (r: String)
    ensures
        r@ == "http://"@ + browser_host(host@) + ":"@ + decimal(port as nat),
{
    let v = chars_of(host);
    let mut r = "http://".to_owned();
    if chars_eq_str(&v, "0.0.0.0") {
        r.append("localhost");
    } else {
        r.append(host);
    }
    r.append(":");
    push_decimal(&mut r, port as u64);
    r
}

/// The cache key of a downloaded chapter: `c<chapter id>-p<page count>`.
pub fn chapter_cache_key(chapter_id: i64, page_count: usize) -> (r: String)
    ensures
        r@ == "c"@ + signed_decimal(chapter_id as int) + "-p"@ + decimal(page_count as nat),
{
    let mut r = "c".to_owned();
    push_signed_decimal(&mut r, chapter_id);
    r.append("-p");
    push_decimal(&mut r, page_count as u64);
    r
}

/// The folder name suffixes that identify a download's source, manga and
/// chapter: `--s<source id>`, `--m<manga id>` and `--c<chapter id>`.
pub fn chapter_dir_suffixes(source_id: &str, manga_id: i64, chapter_id: i64) -> (r: (
    String,
    String,
    String,
))
    ensures
        r.0@ == "--s"@ + source_id@,
        r.1@ == "--m"@ + signed_decimal(manga_id as int),
        r.2@ == "--c"@ + signed_decimal(chapter_id as int),
{
    let mut s = "--s".to_owned();
    s.append(source_id);
    let mut m = "--m".to_owned();
    push_signed_decimal(&mut m, manga_id);
    let mut c = "--c".to_owned();
    push_signed_decimal(&mut c, chapter_id);
    (s, m, c)
}

/// The page count of a downloaded chapter: the manifest's page count, or the
/// database's (negative counts read as 0) when the manifest lists no pages.
pub open spec fn chapter_page_count(db_page_count: int, manifest_pages: nat) -> nat {
    if manifest_pages == 0 {
        if db_page_count < 0 || db_page_count > usize::MAX {
            0
        } else {
            db_page_count as nat
        }
    } else {
        manifest_pages
    }
}

/// The page count of a downloaded chapter.
pub fn downloaded_chapter_page_count(db_page_count: i64, manifest_pages: usize) -> (r: usize)
    ensures
        r == chapter_page_count(db_page_count as int, manifest_pages as nat),
{
    if manifest_pages == 0 {
        if db_page_count < 0 || db_page_count as u64 > usize::MAX as u64 {
            0
        } else {
            db_page_count as usize
        }
    } else {
        manifest_pages
    }
}

/// The category names of a manga, from the comma-separated list the
/// database gives: each trimmed, blank ones dropped, in order.
pub open spec fn category_names(list: Seq<char>) -> Seq<Seq<char>> {
    nonblank_trimmed(split(list, ','))
}

/// Each piece trimmed, blank ones dropped, in order.
pub open spec fn nonblank_trimmed(pieces: Seq<Seq<char>>) -> Seq<Seq<char>>
    decreases pieces.len(),
{
    if pieces.len() == 0 {
        Seq::<Seq<char>>::empty()
    } else {
        let prev = nonblank_trimmed(pieces.drop_last());
        let t = trim(pieces.last());
        if t.len() > 0 {
            prev.push(t)
        } else {
            prev
        }
    }
}

/// The views of a sequence of strings.
pub open spec fn views_of(v: Seq<String>) -> Seq<Seq<char>> {
    v.map_values(|s: String| s@)
}

/// The category names in a comma-separated list.
pub fn parse_category_names(list: &str) -> (r: Vec<String>)
    ensures
        views_of(r@) == category_names(list@),
{
    let v = chars_of(list);
    let b = split_bounds(&v, ',', ',');
    let ghost pieces = split(v@, ',');
    let mut r: Vec<String> = Vec::new();
    let mut k: usize = 0;
    assert(pieces.take(0) =~= Seq::<Seq<char>>::empty());
    assert(views_of(r@) =~= Seq::<Seq<char>>::empty());
    while k < b.len()
        invariant
            k <= b@.len(),
            pieces == split(v@, ','),
            b@.len() == pieces.len(),
            forall|j: int|
                0 <= j < b@.len() ==> (#[trigger] b@[j]).0 <= b@[j].1 <= v@.len() && v@.subrange(
                    b@[j].0 as int,
                    b@[j].1 as int,
                ) == pieces[j],
            views_of(r@) == nonblank_trimmed(pieces.take(k as int)),
        decreases b.len() - k,
    {
        let (x, y) = b[k];
        let piece = sub_chars(&v, x, y);
        let (s, e) = trim_bounds(&piece);
        assert(pieces.take(k + 1).drop_last() =~= pieces.take(k as int));
        assert(pieces.take(k + 1).last() == pieces[k as int]);
        if s < e {
            let t = sub_chars(&piece, s, e);
            let ghost before = r@;
            r.push(string_from_chars(&t));
            assert(views_of(r@) =~= views_of(before).push(t@));
        }
        k += 1;
    }
    assert(pieces.take(b.len() as int) =~= pieces);
    r
}

/// The address that Suwayomi binds to.
pub const SUWAYOMI_HOST: &'static str = "127.0.0.1";

/// The port that Suwayomi listens on.
pub const SUWAYOMI_PORT: u16 = 4566;

/// Suwayomi's HTTP address.
pub const SUWAYOMI_HTTP_BASE_URL: &'static str = "http://127.0.0.1:4566";

/// The runtime bridge address that the server uses: Suwayomi's own in
/// runtime-only mode, else the configured one, else Suwayomi's.
pub fn runtime_bridge_url(runtime_only: bool, java_url: Option<&str>) -> (r: String)
    ensures
        r@ == if runtime_only {
            SUWAYOMI_HTTP_BASE_URL@
        } else {
            match java_url {
                Some(u) => u@,
                None => SUWAYOMI_HTTP_BASE_URL@,
            }
        },
{
    if runtime_only {
        return SUWAYOMI_HTTP_BASE_URL.to_string();
    }
    match java_url {
        Some(u) => u.to_string(),
        None => SUWAYOMI_HTTP_BASE_URL.to_string(),
    }
}

/// Whether a configured runtime bridge address is set aside, with a warning:
/// in runtime-only mode, when it is not Suwayomi's own.
pub fn ignores_java_url(runtime_only: bool, java_url: Option<&str>) -> (r: bool)
    ensures
        r == (runtime_only && java_url is Some && java_url.unwrap()@ != SUWAYOMI_HTTP_BASE_URL@),
{
    match java_url {
        Some(u) => {
            let v = chars_of(u);
            runtime_only && !chars_eq_str(&v, SUWAYOMI_HTTP_BASE_URL)
        },
        None => false,
    }
}

/// The runtime health endpoint under a bridge address.
pub fn runtime_health_url(base_url: &str) -> (r: String)
    ensures
        r@ == base_url@ + "/runtime/v1/health"@,
{
    let mut r = base_url.to_owned();
    r.append("/runtime/v1/health");
    r
}

/// The bridge's manga pages endpoint under a bridge address.
pub fn runtime_bridge_pages_url(base_url: &str) -> (r: String)
    ensures
        r@ == base_url@ + "/runtime/v1/bridge/manga/pages"@,
{
    let mut r = base_url.to_owned();
    r.append("/runtime/v1/bridge/manga/pages");
    r
}

/// How many times the preflight polls the runtime health endpoint, a second
/// apart, before it gives up.
pub const RUNTIME_PREFLIGHT_POLLS: u32 = 60;

/// What one poll of the runtime bridge preflight observed.
#[derive(Debug, Clone, Copy, PartialEq, Eq, Structural)]
pub enum BridgePoll {
    /// The health endpoint did not answer with success.
    HealthDown,
    /// The health endpoint is up and the bridge endpoint answered 404.
    BridgeNotFound,
    /// The health endpoint is up and the bridge endpoint answered otherwise.
    BridgeAnswered,
    /// The health endpoint is up and the bridge endpoint could not be called.
    BridgeUnreachable,
}

/// What the preflight does after a poll.
#[derive(Debug, Clone, Copy, PartialEq, Eq, Structural)]
pub enum BridgeNext {
    /// Wait a second and poll again.
    Retry,
    /// The bridge is there.
    Ready,
    /// Fail: the bridge endpoint is missing, so the wrong runtime is running.
    Missing,
    /// Fail: the bridge endpoint could not be called.
    Unreachable,
    /// Fail after waiting a second: the health endpoint never came up.
    TimedOut,
}

/// The preflight's step after its `polls`-th poll (counting from 1): a bridge
/// answer decides at once; a health endpoint that is down is polled again
/// until the last poll, after which the preflight times out.
pub fn runtime_bridge_preflight_step(polls: u32, poll: BridgePoll) -> (r: BridgeNext)
    requires
        1 <= polls <= RUNTIME_PREFLIGHT_POLLS,
    ensures
        r == match poll {
            BridgePoll::HealthDown => if polls < RUNTIME_PREFLIGHT_POLLS {
                BridgeNext::Retry
            } else {
                BridgeNext::TimedOut
            },
            BridgePoll::BridgeNotFound => BridgeNext::Missing,
            BridgePoll::BridgeAnswered => BridgeNext::Ready,
            BridgePoll::BridgeUnreachable => BridgeNext::Unreachable,
        },
{
    match poll {
        BridgePoll::HealthDown => if polls < RUNTIME_PREFLIGHT_POLLS {
            BridgeNext::Retry
        } else {
            BridgeNext::TimedOut
        },
        BridgePoll::BridgeNotFound => BridgeNext::Missing,
        BridgePoll::BridgeAnswered => BridgeNext::Ready,
        BridgePoll::BridgeUnreachable => BridgeNext::Unreachable,
    }
}

/// `true` or `false` as text.
pub open spec fn bool_text(b: bool) -> Seq<char> {
    if b {
        "true"@
    } else {
        "false"@
    }
}

/// `true` or `false` as text.
pub fn bool_str(b: bool) -> (r: &'static str)
    ensures
        r@ == bool_text(b),
{
    if b {
        "true"
    } else {
        "false"
    }
}

/// Appends a string to a list of strings.
fn push_str(list: &mut Vec<String>, s: &str)
    ensures
        final(list)@.len() == old(list)@.len() + 1,
        forall|i: int| 0 <= i < old(list)@.len() ==> #[trigger] final(list)@[i] == old(list)@[i],
        final(list)@[old(list)@.len() as int]@ == s@,
{
    list.push(s.to_string());
}

/// The prefix and text of one `-D` setting of Suwayomi.
fn setting(name: &str, value: &str) -> (r: String)
    ensures
        r@ == "-Dsuwayomi."@ + name@ + "="@ + value@,
{
    let mut r = "-Dsuwayomi.".to_owned();
    r.append(name);
    r.append("=");
    r.append(value);
    r
}

/// The arguments that start Suwayomi under Java: its settings (no browser, no
/// web interface, the cookie API, runtime-only mode, the data directory, the
/// address and port, the local anime folder), then the JVM's options, then
/// the jar.
pub open spec fn suwayomi_args(runtime_only: bool, root_dir: Seq<char>, local_anime_dir: Seq<char>, jar_path: Seq<char>) -> Seq<Seq<char>> {
    seq![
        "-Dsuwayomi.tachidesk.config.server.initialOpenInBrowserEnabled=false"@,
        "-Dsuwayomi.tachidesk.config.server.webUIEnabled=false"@,
        "-Dsuwayomi.tachidesk.config.server.enableCookieApi=true"@,
        "-Dsuwayomi."@ + "runtimeOnly"@ + "="@ + bool_text(runtime_only),
        "-Dsuwayomi."@ + "tachidesk.config.server.rootDir"@ + "="@ + root_dir,
        "-Dsuwayomi."@ + "tachidesk.config.server.ip"@ + "="@ + SUWAYOMI_HOST@,
        "-Dsuwayomi."@ + "tachidesk.config.server.port"@ + "="@ + decimal(SUWAYOMI_PORT as nat),
        "-Dsuwayomi."@ + "tachidesk.config.server.localAnimeSourcePath"@ + "="@ + local_anime_dir,
        "-XX:+ExitOnOutOfMemoryError"@,
        "--enable-native-access=ALL-UNNAMED"@,
        "--add-opens=java.desktop/sun.awt=ALL-UNNAMED"@,
        "--add-opens=java.desktop/javax.swing=ALL-UNNAMED"@,
        "-jar"@,
        jar_path,
    ]
}

/// The Suwayomi command line turns off Suwayomi's own browser opening and
/// web interface and turns on its cookie API, first of all; it passes the
/// runtime mode, the data directory and the local anime folder as given, and
/// ends with `-jar` and the jar.
pub proof fn suwayomi_runs_headless_behind_the_launcher(
    runtime_only: bool,
    root_dir: Seq<char>,
    local_anime_dir: Seq<char>,
    jar_path: Seq<char>,
)
    ensures
        ({
            let a = suwayomi_args(runtime_only, root_dir, local_anime_dir, jar_path);
            &&& a.len() >= 5
            &&& a[0] == "-Dsuwayomi.tachidesk.config.server.initialOpenInBrowserEnabled=false"@
            &&& a[1] == "-Dsuwayomi.tachidesk.config.server.webUIEnabled=false"@
            &&& a[2] == "-Dsuwayomi.tachidesk.config.server.enableCookieApi=true"@
            &&& a.contains("-Dsuwayomi.runtimeOnly="@ + (if runtime_only {
                "true"@
            } else {
                "false"@
            }))
            &&& a.contains("-Dsuwayomi.tachidesk.config.server.rootDir="@ + root_dir)
            &&& a.contains("-Dsuwayomi.tachidesk.config.server.localAnimeSourcePath="@ + local_anime_dir)
            &&& a[a.len() - 2] == "-jar"@
            &&& a[a.len() - 1] == jar_path
        }),
{
    reveal_strlit("-Dsuwayomi.");
    reveal_strlit("runtimeOnly");
    reveal_strlit("=");
    reveal_strlit("-Dsuwayomi.runtimeOnly=");
    reveal_strlit("tachidesk.config.server.rootDir");
    reveal_strlit("-Dsuwayomi.tachidesk.config.server.rootDir=");
    reveal_strlit("tachidesk.config.server.localAnimeSourcePath");
    reveal_strlit("-Dsuwayomi.tachidesk.config.server.localAnimeSourcePath=");
    reveal_strlit("true");
    reveal_strlit("false");
    let a = suwayomi_args(runtime_only, root_dir, local_anime_dir, jar_path);
    assert(bool_text(runtime_only) == if runtime_only {
        "true"@
    } else {
        "false"@
    });
    assert(a[3] =~= "-Dsuwayomi.runtimeOnly="@ + bool_text(runtime_only));
    assert(a[4] =~= "-Dsuwayomi.tachidesk.config.server.rootDir="@ + root_dir);
    assert(a[7] =~= "-Dsuwayomi.tachidesk.config.server.localAnimeSourcePath="@ + local_anime_dir);
}

/// The arguments that start Suwayomi under Java.
pub fn suwayomi_jvm_args(runtime_only: bool, root_dir: &str, local_anime_dir: &str, jar_path: &str) -> (r: Vec<String>)
    ensures
        views_of(r@) == suwayomi_args(runtime_only, root_dir@, local_anime_dir@, jar_path@),
{
    let mut r: Vec<String> = Vec::new();
    push_str(&mut r, "-Dsuwayomi.tachidesk.config.server.initialOpenInBrowserEnabled=false");
    push_str(&mut r, "-Dsuwayomi.tachidesk.config.server.webUIEnabled=false");
    push_str(&mut r, "-Dsuwayomi.tachidesk.config.server.enableCookieApi=true");
    r.push(setting("runtimeOnly", bool_str(runtime_only)));
    r.push(setting("tachidesk.config.server.rootDir", root_dir));
    r.push(setting("tachidesk.config.server.ip", SUWAYOMI_HOST));
    let mut port = String::new();
    push_decimal(&mut port, SUWAYOMI_PORT as u64);
    r.push(setting("tachidesk.config.server.port", port.as_str()));
    r.push(setting("tachidesk.config.server.localAnimeSourcePath", local_anime_dir));
    push_str(&mut r, "-XX:+ExitOnOutOfMemoryError");
    push_str(&mut r, "--enable-native-access=ALL-UNNAMED");
    push_str(&mut r, "--add-opens=java.desktop/sun.awt=ALL-UNNAMED");
    push_str(&mut r, "--add-opens=java.desktop/javax.swing=ALL-UNNAMED");
    push_str(&mut r, "-jar");
    push_str(&mut r, jar_path);
    assert(views_of(r@) =~= suwayomi_args(runtime_only, root_dir@, local_anime_dir@, jar_path@));
    r
}

/// The executable to start again after an update. On Linux a running
/// executable whose file was replaced reads as `<path> (deleted)`: when the
/// path ends so, every ` (deleted)` is taken out.
pub open spec fn restart_path(exe: Seq<char>, linux: bool) -> Seq<char> {
    if linux && ends_with(exe, " (deleted)"@) {
        replace_all(exe, " (deleted)"@, ""@)
    } else {
        exe
    }
}

/// The path of the executable to start again after an update, given the
/// running executable's path and whether this is Linux.
pub fn restart_executable_path(exe: &str, linux: bool) -> (r: String)
    ensures
        r@ == restart_path(exe@, linux),
{
    proof {
        reveal_strlit(" (deleted)");
    }
    let v = chars_of(exe);
    let marker = chars_of(" (deleted)");
    if linux && marker.len() <= v.len() && chars_occur_at(&v, &marker, v.len() - marker.len()) {
        let out = replace_all_chars(&v, " (deleted)", "");
        string_from_chars(&out)
    } else {
        exe.to_owned()
    }
}

} // verus!
