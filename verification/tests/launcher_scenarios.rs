use manatan::endpoints::{
    cache_busted_manga_page_url, is_manga_page_path, is_manga_pages_path,
    manga_chapters_path_manga_id, parse_manga_page_endpoint, MangaPageEndpoint,
};
use manatan::media::sniff_image_content_type;
use manatan::natural::natural_cmp;
use manatan::pages::rewrite_manga_pages_body;
use manatan::titles::{local_manga_title_from_meta_json, title_from_archive_stem};

#[test]
fn rewrites_loopback_manga_page_urls_to_relative_paths() {
    let body = br#"{"pages":["http://127.0.0.1:4568/api/v1/manga/1/chapter/2/page/0","http://localhost:4568/api/v1/manga/1/chapter/2/page/1?cache=true"]}"#;

    let rewritten = rewrite_manga_pages_body(body).unwrap();
    let value: serde_json::Value = serde_json::from_slice(&rewritten).unwrap();

    assert_eq!(
        value["pages"][0],
        "/api/v1/manga/1/chapter/2/page/0?manatan_page_cache=downloadfix2"
    );
    assert_eq!(
        value["pages"][1],
        "/api/v1/manga/1/chapter/2/page/1?cache=true&manatan_page_cache=downloadfix2"
    );
}

#[test]
fn adds_cache_buster_to_relative_manga_page_urls() {
    let body = br#"{"pages":["/api/v1/manga/1/chapter/2/page/0"]}"#;

    let rewritten = rewrite_manga_pages_body(body).unwrap();
    let value: serde_json::Value = serde_json::from_slice(&rewritten).unwrap();

    assert_eq!(
        value["pages"][0],
        "/api/v1/manga/1/chapter/2/page/0?manatan_page_cache=downloadfix2"
    );
}

#[test]
fn leaves_non_loopback_and_non_page_urls_unchanged() {
    let body = br#"{"pages":["https://cdn.example.test/api/v1/manga/1/chapter/2/page/0","http://127.0.0.1:4568/api/v1/manga/1/chapter/2/thumbnail"]}"#;

    assert!(rewrite_manga_pages_body(body).is_none());
}

#[test]
fn does_not_duplicate_manga_page_cache_buster() {
    assert_eq!(
        cache_busted_manga_page_url(
            "/api/v1/manga/1/chapter/2/page/0?manatan_page_cache=downloadfix2"
        ),
        "/api/v1/manga/1/chapter/2/page/0?manatan_page_cache=downloadfix2"
    );
}

#[test]
fn sniffs_image_content_types_from_bytes() {
    assert_eq!(
        sniff_image_content_type(&[0xFF, 0xD8, 0xFF, 0xE0]),
        Some("image/jpeg")
    );
    assert_eq!(
        sniff_image_content_type(b"RIFFxxxxWEBP"),
        Some("image/webp")
    );
    assert_eq!(sniff_image_content_type(b"PK\x03\x04"), None);
}

#[test]
fn sorts_local_manga_archive_entries_naturally() {
    let mut entries = vec![
        "page10.webp".to_string(),
        "page2.webp".to_string(),
        "page001.webp".to_string(),
    ];

    entries.sort_by(|left, right| natural_cmp(left, right));

    assert_eq!(entries, vec!["page001.webp", "page2.webp", "page10.webp"]);
}

#[test]
fn derives_local_manga_title_from_chapter_archive_stem() {
    assert_eq!(
        title_from_archive_stem("Chapter 001 - Example Manga 001"),
        "Example Manga"
    );
    assert_eq!(
        title_from_archive_stem("Chapter 10 - Example Manga 11"),
        "Example Manga 11"
    );
}

#[test]
fn prefers_local_manga_meta_json_title() {
    let bytes = br#"{"title":{"japanese":"Japanese Name","english":"English Name"}}"#;

    assert_eq!(
        local_manga_title_from_meta_json(bytes),
        Some("Japanese Name".to_string())
    );
}

#[test]
fn matches_only_page_list_endpoint_for_response_rewrite() {
    assert!(is_manga_pages_path("/api/v1/manga/1/chapter/2/pages"));
    assert!(!is_manga_pages_path("/api/v1/manga/1/chapter/2/pages/0"));
    assert!(!is_manga_pages_path("/api/v1/manga/1/chapter/2/page/0"));
}

#[test]
fn parses_downloaded_manga_fallback_endpoints() {
    assert_eq!(
        parse_manga_page_endpoint("/api/v1/manga/708094028058387/chapter/1/pages"),
        Some(MangaPageEndpoint::Pages {
            manga_id: 708094028058387,
            chapter_index: 1
        })
    );
    assert_eq!(
        parse_manga_page_endpoint("/api/v1/manga/708094028058387/chapter/1/page/0"),
        Some(MangaPageEndpoint::Page {
            manga_id: 708094028058387,
            chapter_index: 1,
            page_index: 0
        })
    );
    assert_eq!(
        parse_manga_page_endpoint("/api/v1/manga/not-a-number/chapter/1/page/0"),
        None
    );
}

#[test]
fn extracts_manga_id_from_chapters_endpoint() {
    assert_eq!(
        manga_chapters_path_manga_id("/api/v1/manga/2779780616136912/chapters"),
        Some("2779780616136912")
    );
    assert_eq!(
        manga_chapters_path_manga_id("/api/v1/manga/2779780616136912/chapter/4/pages"),
        None
    );
    assert_eq!(
        manga_chapters_path_manga_id("/api/v1/manga/2779780616136912/chapters/extra"),
        None
    );
}

#[test]
fn matches_page_image_endpoint_for_url_rewrite() {
    assert!(is_manga_page_path("/api/v1/manga/1/chapter/2/page/0"));
    assert!(!is_manga_page_path("/api/v1/manga/1/chapter/2/page"));
    assert!(!is_manga_page_path(
        "/api/v1/manga/1/chapter/2/page/0/extra"
    ));
    assert!(!is_manga_page_path("/api/v1/manga/1/chapter/2/pages"));
}
