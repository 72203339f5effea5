use std::cmp::Ordering;

use manatan::archives::{
    group_local_manga_archive_plans, local_manga_folder_needs_refresh,
    local_manga_folder_refresh_plan, local_manga_shim_summary, ArchiveContents,
    LocalMangaArchivePlan, LocalMangaArchiveShimSummary, LocalMangaFolderOutcome,
    LocalMangaFolderResult,
};
use manatan::endpoints::{
    cache_busted_manga_page_url, is_loopback_or_unspecified_host, manga_chapters_path_manga_id,
    parse_manga_page_endpoint, MangaPageEndpoint,
};
use manatan::launcher::{
    bool_str, chapter_cache_key, chapter_dir_suffixes, chapter_file_key, cmdline_runs_suwayomi,
    cover_file_name, downloaded_chapter_page_count, file_map_text_is_stale,
    get_asset_target_string, ignores_java_url, is_cover_file_name, local_manga_fs_path,
    page_file_key, parse_boolish, parse_category_names, pid_from_file_text, restart_executable_path,
    runtime_bridge_pages_url,
    runtime_bridge_preflight_step, runtime_bridge_url, runtime_health_url, suwayomi_jvm_args,
    web_ui_url, BridgeNext, BridgePoll,
};
use manatan::media::{
    content_type_for_downloaded_page, is_image_content_type, is_json_content_type,
    sniff_image_content_type,
};
use manatan::names::{
    archive_entry_basename, archive_entry_named, extension_for_archive_entry,
    is_ignored_archive_entry, is_local_manga_archive, is_supported_local_manga_image,
    list_archive_image_entries, path_file_name_for_sort, ArchiveEntry,
};
use manatan::natural::{natural_cmp, sort_naturally};
use manatan::numbers::{parse_i32, parse_i64, parse_usize};
use manatan::pages::{
    downloaded_page_urls, downloaded_pages_body, rewrite_manga_page_url, rewrite_manga_pages_body,
    rewrite_parsed_manga_page_url,
};
use manatan::plans::{
    data_dir_plan, database_migration_plan, extensions_migration_plan,
    accept_manifest_path, migrated_data_dir_is_new, settings_entry_action, SettingsEntryAction,
    find_chapter_dir_under_category, find_child_dir_by_suffix, orphan_plan,
    resolve_path_option, resolved_path, PathPart,
    safe_relative_manifest_path, settings_migration_plan, ChapterDirStep, DataDirPlan, DirChild,
    MigrationPlan, OrphanPlan, next_legacy_move_step, LegacyMoveAction, LegacyMoveOutcome,
    LegacyMoveStep,
};
use manatan::serving::{
    asset_request_path, index_html_with_base, should_correct_page_content_type,
    should_rewrite_pages_response,
};
use manatan::titles::{
    chapter_prefix_overlaps_in, extract_xml_tag_text, fingerprint_bytes_64,
    local_manga_folder_name, local_manga_title_from_comic_info, local_manga_title_from_meta_json,
    normalize_chapter_number, sanitize_local_manga_folder_name, strip_chapter_prefix,
    strip_matching_trailing_number, title_from_archive_stem, unescape_minimal_xml,
};
use manatan::updates::{
    perform_update, repo_name, status_after_install, update_error_excerpt, update_status_from_checks,
    ReleaseCheck, UpdateSource, UpdateStatus, UpdateStep,
};

fn strings(items: &[&str]) -> Vec<String> {
    items.iter().map(|s| s.to_string()).collect()
}

fn plan(source: usize, archive: &str, folder: &str) -> LocalMangaArchivePlan {
    LocalMangaArchivePlan {
        source,
        archive_name: archive.to_string(),
        folder_name: folder.to_string(),
    }
}

fn entry(name: &str, is_dir: bool) -> ArchiveEntry {
    ArchiveEntry {
        name: name.to_string(),
        is_dir,
    }
}

fn child(name: &str, is_dir: bool) -> DirChild {
    DirChild {
        name: name.to_string(),
        is_dir,
    }
}

#[test]
fn natural_order_compares_digit_runs_by_value() {
    assert_eq!(natural_cmp("page2", "page10"), Ordering::Less);
    assert_eq!(natural_cmp("page10", "page2"), Ordering::Greater);
    assert_eq!(natural_cmp("page002", "page2"), Ordering::Greater);
    assert_eq!(natural_cmp("page2", "page002"), Ordering::Less);
    assert_eq!(natural_cmp("abc", "abcd"), Ordering::Less);
    assert_eq!(natural_cmp("", ""), Ordering::Equal);
    assert_eq!(natural_cmp("a9", "b1"), Ordering::Less);
}

#[test]
fn natural_order_ignores_ascii_case_only() {
    assert_eq!(natural_cmp("Page1.JPG", "page1.jpg"), Ordering::Equal);
    assert_eq!(natural_cmp("page1.jpg", "page1.jpg"), Ordering::Equal);
    assert_ne!(natural_cmp("page01", "page1"), Ordering::Equal);
    assert_ne!(natural_cmp("É", "é"), Ordering::Equal);
}

#[test]
fn natural_order_is_antisymmetric_and_transitive_on_examples() {
    let names = ["a1", "A01", "a2", "a10", "b", "B", "a1b", "10", "9"];
    for x in names {
        assert_eq!(natural_cmp(x, x), Ordering::Equal);
        for y in names {
            assert_eq!(natural_cmp(x, y), natural_cmp(y, x).reverse());
            for z in names {
                if natural_cmp(x, y) != Ordering::Greater && natural_cmp(y, z) != Ordering::Greater {
                    assert_ne!(natural_cmp(x, z), Ordering::Greater);
                }
            }
        }
    }
}

#[test]
fn sort_naturally_orders_and_keeps_ties_in_place() {
    let sorted = sort_naturally(strings(&["b10", "B1", "a", "b1", "b2"]));
    assert_eq!(sorted, strings(&["a", "B1", "b1", "b2", "b10"]));
    let sorted = sort_naturally(strings(&["b1", "B1"]));
    assert_eq!(sorted, strings(&["b1", "B1"]));
    let empty: Vec<String> = sort_naturally(Vec::new());
    assert!(empty.is_empty());
}

#[test]
fn lists_only_image_pages_of_an_archive() {
    let entries = vec![
        entry("pages/", true),
        entry("pages/10.png", false),
        entry("pages/2.PNG", false),
        entry("__MACOSX/pages/._1.png", false),
        entry("pages/Thumbs.db", false),
        entry("ComicInfo.xml", false),
        entry("pages/1.jpeg", false),
    ];
    assert_eq!(
        list_archive_image_entries(&entries),
        strings(&["pages/1.jpeg", "pages/2.PNG", "pages/10.png"])
    );
}

#[test]
fn finds_archive_entries_by_base_name() {
    let entries = vec![
        entry("meta/", true),
        entry("meta/comicinfo.XML", false),
        entry("ComicInfo.xml", false),
    ];
    assert_eq!(
        archive_entry_named(&entries, "ComicInfo.xml"),
        Some("meta/comicinfo.XML".to_string())
    );
    assert_eq!(archive_entry_named(&entries, "meta.json"), None);
}

#[test]
fn reads_archive_entry_names() {
    assert_eq!(archive_entry_basename("a/b\\c.png"), "c.png");
    assert_eq!(archive_entry_basename("plain"), "plain");
    assert_eq!(extension_for_archive_entry("dir.v2/page"), None);
    assert_eq!(extension_for_archive_entry("dir/page. png "), Some("png"));
    assert_eq!(extension_for_archive_entry("dir/page."), None);
    assert!(is_supported_local_manga_image("x/01.AVIF"));
    assert!(is_supported_local_manga_image("x/01.jxl"));
    assert!(!is_supported_local_manga_image("x/01.txt"));
    assert!(is_ignored_archive_entry("a/.ds_store"));
    assert!(!is_ignored_archive_entry("a/b.png"));
    assert!(is_local_manga_archive("Vol 1.CBZ"));
    assert!(is_local_manga_archive("vol.zip"));
    assert!(!is_local_manga_archive("vol.rar"));
    assert!(!is_local_manga_archive(".zip"));
    assert_eq!(path_file_name_for_sort(None), "");
    assert_eq!(path_file_name_for_sort(Some("a.cbz")), "a.cbz");
}

#[test]
fn groups_archive_plans_by_folder() {
    let plans = vec![
        plan(0, "ch10.cbz", "Foo"),
        plan(1, "ch2.cbz", "Bar"),
        plan(2, "ch1.cbz", "Foo"),
        plan(3, "CH1.cbz", "Foo"),
    ];
    let groups = group_local_manga_archive_plans(plans);
    assert_eq!(groups.len(), 2);
    assert_eq!(groups[0].folder_name, "Bar");
    assert_eq!(
        groups[0].archives.iter().map(|p| p.source).collect::<Vec<_>>(),
        vec![1]
    );
    assert_eq!(groups[1].folder_name, "Foo");
    assert_eq!(
        groups[1].archives.iter().map(|p| p.source).collect::<Vec<_>>(),
        vec![2, 3, 0]
    );
    assert!(group_local_manga_archive_plans(Vec::new()).is_empty());
}

#[test]
fn decides_when_a_folder_needs_refresh() {
    assert!(!local_manga_folder_needs_refresh(&vec![true, true], false, true));
    assert!(local_manga_folder_needs_refresh(&vec![true, false], false, true));
    assert!(local_manga_folder_needs_refresh(&vec![true], true, true));
    assert!(local_manga_folder_needs_refresh(&vec![true], false, false));
    assert!(!local_manga_folder_needs_refresh(&Vec::new(), true, false));
}

#[test]
fn page_paths_parse_back_to_their_endpoint() {
    let urls = downloaded_page_urls(708094028058387, -3, 3, "c9-p3");
    assert_eq!(urls.len(), 3);
    for (index, url) in urls.iter().enumerate() {
        let path = url.split('?').next().unwrap();
        assert_eq!(
            parse_manga_page_endpoint(path),
            Some(MangaPageEndpoint::Page {
                manga_id: 708094028058387,
                chapter_index: -3,
                page_index: index,
            })
        );
    }
    assert_eq!(
        urls[1],
        "/api/v1/manga/708094028058387/chapter/-3/page/1?manatan_downloaded=c9-p3&manatan_page_cache=downloadfix2"
    );
}

#[test]
fn serves_downloaded_page_lists_as_json() {
    let body = downloaded_pages_body(1, 2, 2, "c5-p2").unwrap();
    let value: serde_json::Value = serde_json::from_slice(&body).unwrap();
    assert_eq!(
        value["pages"][0],
        "/api/v1/manga/1/chapter/2/page/0?manatan_downloaded=c5-p2&manatan_page_cache=downloadfix2"
    );
    assert_eq!(value["pages"].as_array().unwrap().len(), 2);
    let empty = downloaded_pages_body(1, 2, 0, "c5-p0").unwrap();
    assert_eq!(empty, br#"{"pages":[]}"#.to_vec());
}

#[test]
fn cache_busting_twice_is_cache_busting_once() {
    for raw in ["/a", "/a?b=1", "/a?manatan_page_cache=x"] {
        let once = cache_busted_manga_page_url(raw);
        assert_eq!(cache_busted_manga_page_url(&once), once);
        assert!(once.contains("manatan_page_cache="));
    }
    assert_eq!(cache_busted_manga_page_url("/a"), "/a?manatan_page_cache=downloadfix2");
    assert_eq!(cache_busted_manga_page_url("/a?b=1"), "/a?b=1&manatan_page_cache=downloadfix2");
}

#[test]
fn rewrites_page_urls_through_the_url_parser() {
    assert_eq!(
        rewrite_manga_page_url("http://0.0.0.0:4568/api/v1/manga/1/chapter/2/page/3?x=1"),
        Some("/api/v1/manga/1/chapter/2/page/3?x=1&manatan_page_cache=downloadfix2".to_string())
    );
    assert_eq!(
        rewrite_manga_page_url("https://example.com/api/v1/manga/1/chapter/2/page/3"),
        None
    );
    assert_eq!(rewrite_manga_page_url("not a url"), None);
    assert_eq!(rewrite_manga_page_url("/api/v1/manga/1/chapter/2/pages"), None);
    assert_eq!(
        rewrite_parsed_manga_page_url(Some("localhost"), "/api/v1/manga/1/chapter/2/page/0", None),
        Some("/api/v1/manga/1/chapter/2/page/0?manatan_page_cache=downloadfix2".to_string())
    );
    assert_eq!(
        rewrite_parsed_manga_page_url(None, "/api/v1/manga/1/chapter/2/page/0", None),
        None
    );
}

#[test]
fn rewrites_page_list_bodies_and_keeps_other_members() {
    let body = br#"{"pages":["/api/v1/manga/1/chapter/2/page/0",7],"count":1}"#;
    let rewritten = rewrite_manga_pages_body(body).unwrap();
    let value: serde_json::Value = serde_json::from_slice(&rewritten).unwrap();
    assert_eq!(
        value["pages"][0],
        "/api/v1/manga/1/chapter/2/page/0?manatan_page_cache=downloadfix2"
    );
    assert_eq!(value["pages"][1], 7);
    assert_eq!(value["count"], 1);
    assert!(rewrite_manga_pages_body(b"not json").is_none());
    assert!(rewrite_manga_pages_body(br#"{"pages":"x"}"#).is_none());
    assert!(rewrite_manga_pages_body(
        br#"{"pages":["/api/v1/manga/1/chapter/2/page/0?manatan_page_cache=downloadfix2"]}"#
    )
    .is_none());
}

#[test]
fn recognises_this_machine_as_a_host() {
    for host in ["127.0.0.1", "localhost", "::1", "0.0.0.0"] {
        assert!(is_loopback_or_unspecified_host(host));
    }
    assert!(!is_loopback_or_unspecified_host("example.com"));
    assert!(!is_loopback_or_unspecified_host("LOCALHOST"));
}

#[test]
fn parses_endpoints_strictly() {
    assert_eq!(manga_chapters_path_manga_id("/api/v1/manga/12/chapters"), Some("12"));
    assert_eq!(manga_chapters_path_manga_id("/api/v1/manga/12/chapter"), None);
    assert_eq!(
        parse_manga_page_endpoint("/api/v1/manga/5/chapter/7/pages"),
        Some(MangaPageEndpoint::Pages {
            manga_id: 5,
            chapter_index: 7
        })
    );
    assert_eq!(parse_manga_page_endpoint("/api/v1/manga/5/chapter/7/page/-1"), None);
    assert_eq!(parse_manga_page_endpoint("/api/v2/manga/5/chapter/7/pages"), None);
}

#[test]
fn sniffs_more_image_types() {
    let png = [0x89, 0x50, 0x4E, 0x47, 0x0D, 0x0A, 0x1A, 0x0A, 0x00];
    assert_eq!(sniff_image_content_type(&png), Some("image/png"));
    assert_eq!(sniff_image_content_type(b"GIF87a..."), Some("image/gif"));
    assert_eq!(sniff_image_content_type(b"GIF89a"), Some("image/gif"));
    assert_eq!(sniff_image_content_type(b"GIF88a"), None);
    assert_eq!(sniff_image_content_type(&[0xFF, 0xD8]), None);
    assert_eq!(sniff_image_content_type(b""), None);
}

#[test]
fn chooses_content_types_for_downloaded_pages() {
    assert_eq!(content_type_for_downloaded_page("001.png", &[0xFF, 0xD8, 0xFF]), "image/jpeg");
    assert_eq!(content_type_for_downloaded_page("001.AVIF", b"????"), "image/avif");
    assert_eq!(content_type_for_downloaded_page("001.bin", b"????"), "application/octet-stream");
    assert!(is_image_content_type(Some("Image/PNG")));
    assert!(!is_image_content_type(Some("text/html")));
    assert!(!is_image_content_type(None));
    assert!(is_json_content_type(Some("Application/JSON; charset=utf-8")));
    assert!(!is_json_content_type(Some("text/plain")));
}

#[test]
fn decides_which_responses_are_touched() {
    assert!(should_rewrite_pages_response(
        "/api/v1/manga/1/chapter/2/pages",
        true,
        Some("application/json")
    ));
    assert!(!should_rewrite_pages_response(
        "/api/v1/manga/1/chapter/2/pages",
        false,
        Some("application/json")
    ));
    assert!(!should_rewrite_pages_response(
        "/api/v1/manga/1/chapter/2/pages",
        true,
        Some("text/html")
    ));
    assert!(should_correct_page_content_type(true, Some("application/octet-stream")));
    assert!(should_correct_page_content_type(true, None));
    assert!(!should_correct_page_content_type(true, Some("image/webp")));
    assert!(!should_correct_page_content_type(false, None));
}

#[test]
fn serves_the_single_page_app() {
    assert_eq!(asset_request_path("//assets/app.js"), "assets/app.js");
    assert_eq!(asset_request_path("/"), "");
    assert_eq!(
        index_html_with_base("<html><head><title>x</title></head></html>"),
        "<html><head><base href=\"/\" /><title>x</title></head></html>"
    );
}

#[test]
fn sanitizes_folder_names() {
    assert_eq!(
        sanitize_local_manga_folder_name("  a<b>:c. "),
        Some("a_b__c".to_string())
    );
    assert_eq!(sanitize_local_manga_folder_name(" ... "), None);
    assert_eq!(sanitize_local_manga_folder_name("x\u{7}y"), Some("x_y".to_string()));
    assert_eq!(sanitize_local_manga_folder_name(". a ."), Some("a".to_string()));
}

#[test]
fn derives_titles_from_archive_stems() {
    assert_eq!(normalize_chapter_number(" 007 "), "7");
    assert_eq!(normalize_chapter_number("000"), "0");
    assert_eq!(strip_matching_trailing_number("Foo 01", "1"), "Foo");
    assert_eq!(strip_matching_trailing_number("Foo 2", "1"), "Foo 2");
    assert_eq!(strip_matching_trailing_number("Foo", "1"), "Foo");
    assert_eq!(
        strip_chapter_prefix("  Chapter 1.5 - Bar 1.5 "),
        ("Bar 1.5".to_string(), Some("1.5".to_string()))
    );
    assert_eq!(strip_chapter_prefix("Chapter x - Bar"), ("Chapter x - Bar".to_string(), None));
    assert_eq!(strip_chapter_prefix("Chapter 2 Bar"), ("Chapter 2 Bar".to_string(), None));
    assert_eq!(title_from_archive_stem("chapter 1.5 - Bar 1.5"), "Bar");
    assert_eq!(title_from_archive_stem("Volume 1"), "Volume 1");
    assert!(chapter_prefix_overlaps_in(" Chapter - Foo"));
    assert!(!chapter_prefix_overlaps_in("Chapter 1 - Foo"));
}

#[test]
fn reads_comic_info_titles() {
    assert_eq!(unescape_minimal_xml("&amp;lt; &quot;a&apos;"), "< \"a'");
    assert_eq!(
        extract_xml_tag_text("<Series>A &amp; B</Series>", "Series"),
        Some("A & B".to_string())
    );
    assert_eq!(extract_xml_tag_text("<a>x</a>", "b"), None);
    assert_eq!(extract_xml_tag_text("<a>x", "a"), None);
    assert_eq!(
        local_manga_title_from_comic_info(
            b"<ComicInfo><Series>Original</Series><Title> T </Title></ComicInfo>"
        ),
        Some("T".to_string())
    );
    assert_eq!(
        local_manga_title_from_comic_info(b"<ComicInfo><Series> S </Series></ComicInfo>"),
        Some("S".to_string())
    );
    assert_eq!(local_manga_title_from_comic_info(b"<Series>  </Series>"), None);
    assert_eq!(local_manga_title_from_comic_info(&[0xFF, 0xFE]), None);
}

#[test]
fn reads_meta_json_titles() {
    assert_eq!(
        local_manga_title_from_meta_json(br#"{"title":{"japanese":"  ","english":" E "}}"#),
        Some("E".to_string())
    );
    assert_eq!(
        local_manga_title_from_meta_json(br#"{"title":{"romaji":"R","pretty":"P"}}"#),
        Some("P".to_string())
    );
    assert_eq!(local_manga_title_from_meta_json(br#"{"title":"plain"}"#), None);
    assert_eq!(local_manga_title_from_meta_json(b"{"), None);
}

#[test]
fn names_local_manga_folders() {
    assert_eq!(
        local_manga_folder_name(None, None, "Chapter 001 - Example Manga 001"),
        "Example Manga"
    );
    assert_eq!(local_manga_folder_name(Some("A/B".to_string()), None, "x"), "A_B");
    assert_eq!(
        local_manga_folder_name(None, Some(" Comic ".to_string()), "x"),
        "Comic"
    );
    assert_eq!(local_manga_folder_name(Some("...".to_string()), None, "stem"), "stem");
    assert_eq!(local_manga_folder_name(Some("...".to_string()), None, "..."), "Manga");
}

#[test]
fn fingerprints_bytes_with_fnv1a() {
    assert_eq!(fingerprint_bytes_64(b""), "cbf29ce484222325");
    assert_eq!(fingerprint_bytes_64(b"a"), "af63dc4c8601ec8c");
    assert_eq!(fingerprint_bytes_64(b"foobar"), "85944171f73967e8");
}

#[test]
fn parses_boolish_option_values() {
    assert_eq!(parse_boolish("YES"), Ok(true));
    assert_eq!(parse_boolish("On"), Ok(true));
    assert_eq!(parse_boolish("1"), Ok(true));
    assert_eq!(parse_boolish("off"), Ok(false));
    assert_eq!(parse_boolish("0"), Ok(false));
    assert_eq!(
        parse_boolish("maybe"),
        Err("Invalid boolean value: maybe".to_string())
    );
    assert_eq!(parse_boolish(" true"), Err("Invalid boolean value:  true".to_string()));
}

#[test]
fn names_release_assets() {
    assert_eq!(get_asset_target_string("windows", "aarch64"), Some("Windows-x64"));
    assert_eq!(get_asset_target_string("macos", "aarch64"), Some("macOS-Silicon"));
    assert_eq!(get_asset_target_string("macos", "x86_64"), Some("macOS-Intel"));
    assert_eq!(get_asset_target_string("linux", "aarch64"), Some("Linux-arm64.tar"));
    assert_eq!(get_asset_target_string("linux", "x86_64"), Some("Linux-amd64.tar"));
    assert_eq!(get_asset_target_string("freebsd", "x86_64"), None);
}

#[test]
fn builds_verbatim_windows_paths() {
    assert_eq!(local_manga_fs_path("/a/b", false, true), "/a/b");
    assert_eq!(local_manga_fs_path("C:\\a", true, true), "\\\\?\\C:\\a");
    assert_eq!(local_manga_fs_path("\\\\server\\share", true, true), "\\\\?\\UNC\\server\\share");
    assert_eq!(local_manga_fs_path("\\\\?\\C:\\a", true, true), "\\\\?\\C:\\a");
    assert_eq!(local_manga_fs_path("rel\\a", true, false), "rel\\a");
}

#[test]
fn reads_pid_files_and_command_lines() {
    assert_eq!(pid_from_file_text(" 123\n"), Some(123));
    assert_eq!(pid_from_file_text("-7"), Some(-7));
    assert_eq!(pid_from_file_text(""), None);
    assert_eq!(pid_from_file_text("12a"), None);
    assert_eq!(pid_from_file_text("99999999999"), None);
    assert!(cmdline_runs_suwayomi("java\0-jar\0bin/Suwayomi-Server.jar\0"));
    assert!(!cmdline_runs_suwayomi("java\0-jar\0other.jar"));
}

#[test]
fn names_local_manga_files() {
    assert!(file_map_text_is_stale(r#"{"k":"zip:\\\\?\\C:"}"#));
    assert!(!file_map_text_is_stale(r#"{"k":"zip:/a"}"#));
    assert!(is_cover_file_name("Cover.JPG"));
    assert!(!is_cover_file_name("covers.jpg"));
    assert_eq!(cover_file_name("a/001.PNG"), "cover.png");
    assert_eq!(cover_file_name("a/001"), "cover.jpg");
    assert_eq!(page_file_key("/m/a.cbz", "p/1.png"), "zip:/m/a.cbz::p/1.png");
    assert_eq!(chapter_file_key("Foo", "a.cbz"), "Foo/a.cbz");
}

#[test]
fn builds_download_names_and_counts() {
    assert_eq!(web_ui_url("0.0.0.0", 4568), "http://localhost:4568");
    assert_eq!(web_ui_url("192.168.1.2", 80), "http://192.168.1.2:80");
    assert_eq!(chapter_cache_key(-5, 3), "c-5-p3");
    assert_eq!(
        chapter_dir_suffixes("abc", 12, -1),
        ("--sabc".to_string(), "--m12".to_string(), "--c-1".to_string())
    );
    assert_eq!(downloaded_chapter_page_count(7, 0), 7);
    assert_eq!(downloaded_chapter_page_count(-7, 0), 0);
    assert_eq!(downloaded_chapter_page_count(7, 3), 3);
    assert_eq!(parse_category_names(" a, ,b ,"), strings(&["a", "b"]));
    assert!(parse_category_names("").is_empty());
}

#[test]
fn chooses_the_runtime_bridge() {
    assert_eq!(runtime_bridge_url(true, Some("http://x")), "http://127.0.0.1:4566");
    assert_eq!(runtime_bridge_url(false, Some("http://x")), "http://x");
    assert_eq!(runtime_bridge_url(false, None), "http://127.0.0.1:4566");
    assert!(ignores_java_url(true, Some("http://x")));
    assert!(!ignores_java_url(true, Some("http://127.0.0.1:4566")));
    assert!(!ignores_java_url(false, Some("http://x")));
    assert!(!ignores_java_url(true, None));
    assert_eq!(runtime_health_url("http://h"), "http://h/runtime/v1/health");
    assert_eq!(
        runtime_bridge_pages_url("http://h"),
        "http://h/runtime/v1/bridge/manga/pages"
    );
    assert_eq!(runtime_bridge_preflight_step(1, BridgePoll::HealthDown), BridgeNext::Retry);
    assert_eq!(runtime_bridge_preflight_step(60, BridgePoll::HealthDown), BridgeNext::TimedOut);
    assert_eq!(runtime_bridge_preflight_step(3, BridgePoll::BridgeNotFound), BridgeNext::Missing);
    assert_eq!(runtime_bridge_preflight_step(3, BridgePoll::BridgeAnswered), BridgeNext::Ready);
    assert_eq!(
        runtime_bridge_preflight_step(3, BridgePoll::BridgeUnreachable),
        BridgeNext::Unreachable
    );
}

#[test]
fn builds_the_suwayomi_command_line() {
    let args = suwayomi_jvm_args(true, "/data", "/data/local-anime", "bin/Suwayomi-Server.jar");
    assert_eq!(args.len(), 14);
    assert_eq!(args[3], "-Dsuwayomi.runtimeOnly=true");
    assert_eq!(args[4], "-Dsuwayomi.tachidesk.config.server.rootDir=/data");
    assert_eq!(args[5], "-Dsuwayomi.tachidesk.config.server.ip=127.0.0.1");
    assert_eq!(args[6], "-Dsuwayomi.tachidesk.config.server.port=4566");
    assert_eq!(
        args[7],
        "-Dsuwayomi.tachidesk.config.server.localAnimeSourcePath=/data/local-anime"
    );
    assert_eq!(args[12], "-jar");
    assert_eq!(args[13], "bin/Suwayomi-Server.jar");
    assert_eq!(bool_str(false), "false");
}

#[test]
fn plans_data_directory_and_migrations() {
    assert_eq!(data_dir_plan(true, false, true, false), DataDirPlan::UseNew);
    assert_eq!(data_dir_plan(false, true, true, true), DataDirPlan::ReplaceEmptyNew);
    assert_eq!(data_dir_plan(false, true, true, false), DataDirPlan::UseNewBesideLegacy);
    assert_eq!(data_dir_plan(false, false, true, false), DataDirPlan::MigrateLegacy);
    assert_eq!(data_dir_plan(false, false, false, false), DataDirPlan::UseNew);
    assert_eq!(extensions_migration_plan(false, true, true), MigrationPlan::NothingToMigrate);
    assert_eq!(settings_migration_plan(true, true, false), MigrationPlan::MergeMissing);
    assert_eq!(settings_migration_plan(true, true, true), MigrationPlan::ReplaceEmptyThenMove);
    assert_eq!(settings_migration_plan(true, false, false), MigrationPlan::Move);
    assert_eq!(orphan_plan(false, true), OrphanPlan::RemoveStalePidFile);
    assert_eq!(orphan_plan(true, false), OrphanPlan::RemovePidFile);
    assert_eq!(orphan_plan(true, true), OrphanPlan::TerminateAndRemove);
    assert_eq!(database_migration_plan(false, false, true, true), MigrationPlan::NothingToMigrate);
    assert_eq!(database_migration_plan(true, false, false, true), MigrationPlan::AlreadyPresent);
    assert_eq!(database_migration_plan(false, true, false, false), MigrationPlan::Move);
    assert_eq!(extensions_migration_plan(true, false, false), MigrationPlan::Move);
}

#[test]
fn accepts_only_plain_relative_manifest_paths() {
    assert_eq!(safe_relative_manifest_path("images/001.jpg"), Some("images/001.jpg"));
    assert_eq!(safe_relative_manifest_path("../001.jpg"), None);
    assert_eq!(safe_relative_manifest_path("/etc/passwd"), None);
    assert_eq!(safe_relative_manifest_path("./001.jpg"), None);
}

#[test]
fn resolves_configured_directories() {
    assert_eq!(resolve_path_option(Some("/abs"), "/data", "x"), "/abs");
    assert_eq!(resolve_path_option(Some("rel"), "/data", "x"), "/data/rel");
    assert_eq!(resolve_path_option(None, "/data", "downloads"), "/data/downloads");
}

#[test]
fn walks_down_to_a_chapter_folder() {
    let listing = vec![child("x--s1", false), child("Source--s1", true), child("B--s1", true)];
    assert_eq!(find_child_dir_by_suffix(&listing, "--s1"), Some(1));
    assert_eq!(find_child_dir_by_suffix(&listing, "--s2"), None);
    assert!(matches!(
        find_chapter_dir_under_category(0, &listing, "--s1", "--m2", "--c3"),
        ChapterDirStep::Enter(name) if name == "Source--s1"
    ));
    let chapters = vec![child("Ch 1--c3", true)];
    assert!(matches!(
        find_chapter_dir_under_category(2, &chapters, "--s1", "--m2", "--c3"),
        ChapterDirStep::Found(name) if name == "Ch 1--c3"
    ));
    assert!(matches!(
        find_chapter_dir_under_category(1, &chapters, "--s1", "--m2", "--c3"),
        ChapterDirStep::Missing
    ));
}

#[test]
fn settles_update_status_from_checks() {
    assert!(matches!(
        update_status_from_checks("1.0.0", ReleaseCheck::Found("1.1.0".to_string()), None),
        UpdateStatus::UpdateAvailable(v) if v == "1.1.0"
    ));
    assert!(matches!(
        update_status_from_checks("1.0.0", ReleaseCheck::Found("0.9.0".to_string()), None),
        UpdateStatus::UpToDate
    ));
    assert!(matches!(
        update_status_from_checks("1.0.0", ReleaseCheck::Found("garbage".to_string()), None),
        UpdateStatus::UpToDate
    ));
    assert!(matches!(
        update_status_from_checks(
            "1.0.0",
            ReleaseCheck::Failed("a".to_string()),
            Some(ReleaseCheck::Found("2.0.0".to_string()))
        ),
        UpdateStatus::UpdateAvailable(v) if v == "2.0.0"
    ));
    assert!(matches!(
        update_status_from_checks(
            "1.0.0",
            ReleaseCheck::Failed("a".to_string()),
            Some(ReleaseCheck::Failed("b".to_string()))
        ),
        UpdateStatus::Error(e) if e == "b"
    ));
    assert!(matches!(
        update_status_from_checks("1.0.0", ReleaseCheck::Failed("a".to_string()), None),
        UpdateStatus::Error(e) if e == "a"
    ));
    assert!(matches!(status_after_install(Ok(())), UpdateStatus::RestartRequired));
    assert!(matches!(
        status_after_install(Err("e".to_string())),
        UpdateStatus::Error(e) if e == "e"
    ));
}

#[test]
fn installs_from_the_current_then_the_legacy_repository() {
    assert_eq!(perform_update(None), UpdateStep::Install(UpdateSource::Current));
    assert_eq!(
        perform_update(Some((UpdateSource::Current, true))),
        UpdateStep::Finished(true)
    );
    assert_eq!(
        perform_update(Some((UpdateSource::Current, false))),
        UpdateStep::Install(UpdateSource::Legacy)
    );
    assert_eq!(
        perform_update(Some((UpdateSource::Legacy, false))),
        UpdateStep::Finished(false)
    );
    assert_eq!(repo_name(UpdateSource::Current), "Manatan");
    assert_eq!(repo_name(UpdateSource::Legacy), "Mangatan");
}

#[test]
fn parses_bounded_integers() {
    assert_eq!(parse_i64("-9223372036854775808"), Some(i64::MIN));
    assert_eq!(parse_i64("9223372036854775808"), None);
    assert_eq!(parse_i64("+5"), Some(5));
    assert_eq!(parse_i64(""), None);
    assert_eq!(parse_i32("2147483647"), Some(i32::MAX));
    assert_eq!(parse_usize("-1"), None);
    assert_eq!(parse_usize("007"), Some(7));
}

#[test]
fn restarts_the_replaced_executable() {
    assert_eq!(
        restart_executable_path("/opt/manatan/manatan (deleted)", true),
        "/opt/manatan/manatan"
    );
    assert_eq!(
        restart_executable_path("/opt/manatan/manatan (deleted)", false),
        "/opt/manatan/manatan (deleted)"
    );
    assert_eq!(
        restart_executable_path("/a (deleted)/manatan", true),
        "/a (deleted)/manatan"
    );
    assert_eq!(restart_executable_path("/a (deleted)/b (deleted)", true), "/a/b");
}

#[test]
fn shortens_update_errors() {
    assert_eq!(update_error_excerpt("short"), "short");
    let long = "é".repeat(45);
    assert_eq!(update_error_excerpt(&long), "é".repeat(40));
}

#[test]
fn sanitized_folder_names_hold_no_separators() {
    let folder = sanitize_local_manga_folder_name(" a/b\\c\u{1}d ").unwrap();
    assert_eq!(folder, "a_b_c_d");
    assert!(!folder.contains('/') && !folder.contains('\\'));
    assert_eq!(sanitize_local_manga_folder_name(". .. ."), Some("..".to_string()));
    assert_eq!(sanitize_local_manga_folder_name("a. ."), Some("a.".to_string()));
}

#[test]
fn written_pids_read_back() {
    for pid in [0_i32, 1, 4242, i32::MAX, -17] {
        assert_eq!(pid_from_file_text(&pid.to_string()), Some(pid));
    }
}

#[test]
fn refuses_manifest_paths_that_climb_out() {
    assert_eq!(safe_relative_manifest_path("a/../../b"), None);
    assert_eq!(safe_relative_manifest_path("images/../x.jpg"), None);
    assert_eq!(safe_relative_manifest_path("images/sub/001.jpg"), Some("images/sub/001.jpg"));
    let plain = vec![PathPart::Normal("a".to_string()), PathPart::Normal("b".to_string())];
    assert_eq!(accept_manifest_path("a/b", false, &plain), Some("a/b"));
    assert_eq!(accept_manifest_path("a/b", true, &plain), None);
    let climbing = vec![PathPart::Normal("a".to_string()), PathPart::ParentDir];
    assert_eq!(accept_manifest_path("a/..", false, &climbing), None);
}

#[test]
fn resolves_paths_by_what_the_platform_says() {
    assert_eq!(resolved_path(Some("/mnt/dl"), true, "/data", "downloads"), "/mnt/dl");
    assert_eq!(resolved_path(Some("dl"), false, "/data", "downloads"), "/data/dl");
    assert_eq!(resolved_path(None, false, "/data", "downloads"), "/data/downloads");
    assert_eq!(resolve_path_option(Some("a/b"), "/data", "x"), "/data/a/b");
    assert_eq!(resolve_path_option(Some("dl"), "/data/", "x"), "/data/dl");
}

#[test]
fn orders_names_by_long_numbers() {
    assert_eq!(
        natural_cmp("ch99999999999999999999999", "ch100"),
        Ordering::Greater
    );
    assert_eq!(natural_cmp("page9.jpg", "page10.jpg"), Ordering::Less);
    assert_eq!(natural_cmp("page10.jpg", "page10.jpg"), Ordering::Equal);
}

#[test]
fn equal_chapter_numbers_normalize_alike() {
    assert_eq!(normalize_chapter_number("0010"), normalize_chapter_number("10"));
    assert_ne!(normalize_chapter_number("010"), normalize_chapter_number("100"));
    assert_eq!(normalize_chapter_number("00"), normalize_chapter_number("0"));
}

#[test]
fn plans_what_a_folder_refresh_writes() {
    let archives = vec![
        ArchiveContents { archive_name: "a.cbz".to_string(), pages: Vec::new(), has_comic_info: true },
        ArchiveContents {
            archive_name: "b.cbz".to_string(),
            pages: strings(&["p/1.PNG", "p/2.png"]),
            has_comic_info: false,
        },
        ArchiveContents {
            archive_name: "c.cbz".to_string(),
            pages: strings(&["1.jpg"]),
            has_comic_info: true,
        },
    ];
    let plan = local_manga_folder_refresh_plan(&archives);
    assert_eq!(plan.cover, Some((1, "p/1.PNG".to_string(), "cover.png".to_string())));
    assert_eq!(plan.comic_info, Some(2));
    assert_eq!(plan.chapters, vec![1, 2]);
    let empty = local_manga_folder_refresh_plan(&Vec::new());
    assert_eq!(empty.cover, None);
    assert_eq!(empty.comic_info, None);
    assert!(empty.chapters.is_empty());
}

#[test]
fn decides_legacy_moves_and_settings_merges() {
    assert!(migrated_data_dir_is_new(true, true, false));
    assert!(migrated_data_dir_is_new(true, false, true));
    assert!(!migrated_data_dir_is_new(true, false, false));
    assert!(!migrated_data_dir_is_new(false, true, true));
    assert_eq!(settings_entry_action(true, true), SettingsEntryAction::MergeFolder);
    assert_eq!(settings_entry_action(false, true), SettingsEntryAction::KeepExisting);
    assert_eq!(settings_entry_action(false, false), SettingsEntryAction::CopyFile);
}

#[test]
fn rewriting_a_page_list_twice_changes_nothing_more() {
    let body = br#"{"id":7,"pages":["http://127.0.0.1:4568/api/v1/manga/1/chapter/2/page/0",3,"/api/v1/manga/1/chapter/2/page/1","https://cdn.example.test/x.png"]}"#;
    let once = rewrite_manga_pages_body(body).unwrap();
    let value: serde_json::Value = serde_json::from_slice(&once).unwrap();
    assert_eq!(value["id"], 7);
    assert_eq!(
        value["pages"][0],
        "/api/v1/manga/1/chapter/2/page/0?manatan_page_cache=downloadfix2"
    );
    assert_eq!(value["pages"][1], 3);
    assert_eq!(
        value["pages"][2],
        "/api/v1/manga/1/chapter/2/page/1?manatan_page_cache=downloadfix2"
    );
    assert_eq!(value["pages"][3], "https://cdn.example.test/x.png");
    assert!(rewrite_manga_pages_body(&once).is_none());
}

#[test]
fn shim_summary_counts_copies_refreshes_and_skips() {
    let folders = vec![
        LocalMangaFolderResult { archives: 2, outcome: LocalMangaFolderOutcome::Refreshed(1) },
        LocalMangaFolderResult { archives: 3, outcome: LocalMangaFolderOutcome::UpToDate },
        LocalMangaFolderResult { archives: 1, outcome: LocalMangaFolderOutcome::Failed },
        LocalMangaFolderResult { archives: 4, outcome: LocalMangaFolderOutcome::Refreshed(4) },
    ];
    assert_eq!(
        local_manga_shim_summary(12, 10, &folders),
        LocalMangaArchiveShimSummary {
            scanned_archives: 12,
            planned_archives: 10,
            planned_folders: 4,
            copied_archives: 5,
            refreshed_folders: 2,
            skipped_archives: 6,
        }
    );
}

#[test]
fn shim_summary_of_an_empty_directory_is_all_zero() {
    let summary = local_manga_shim_summary(0, 0, &Vec::new());
    assert_eq!(summary.scanned_archives, 0);
    assert_eq!(summary.planned_folders, 0);
    assert_eq!(summary.skipped_archives, 0);
}

#[test]
fn shim_summary_skips_archives_that_could_not_be_planned() {
    let summary = local_manga_shim_summary(3, 0, &Vec::new());
    assert_eq!(summary.skipped_archives, 3);
    assert_eq!(summary.copied_archives, 0);
}

#[test]
fn legacy_move_renames_first_then_copies_then_removes() {
    assert_eq!(next_legacy_move_step(None, true), LegacyMoveStep::Perform(LegacyMoveAction::Rename));
    assert_eq!(
        next_legacy_move_step(Some((LegacyMoveAction::Rename, true)), true),
        LegacyMoveStep::Finished(LegacyMoveOutcome::Moved)
    );
    assert_eq!(
        next_legacy_move_step(Some((LegacyMoveAction::Rename, false)), true),
        LegacyMoveStep::Perform(LegacyMoveAction::Copy)
    );
    assert_eq!(
        next_legacy_move_step(Some((LegacyMoveAction::Copy, true)), true),
        LegacyMoveStep::Perform(LegacyMoveAction::RemoveLegacy)
    );
    assert_eq!(
        next_legacy_move_step(Some((LegacyMoveAction::Copy, true)), false),
        LegacyMoveStep::Finished(LegacyMoveOutcome::Copied)
    );
    assert_eq!(
        next_legacy_move_step(Some((LegacyMoveAction::Copy, false)), true),
        LegacyMoveStep::Finished(LegacyMoveOutcome::Failed)
    );
    assert_eq!(
        next_legacy_move_step(Some((LegacyMoveAction::RemoveLegacy, false)), true),
        LegacyMoveStep::Finished(LegacyMoveOutcome::Copied)
    );
}
