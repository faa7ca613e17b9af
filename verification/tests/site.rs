use websites::api::{
    mime_from_extension, normalize_asset_mime_filter, normalize_tag_names, parse_page_type,
};
use websites::entities::{ContentItem, PageType, PublishMethod, Timestamp};
use websites::errors::SiteError;
use websites::templates::push_unique_path;
use websites::site::{content_primary_route, normalize_slug, sanitize_tag_slug};
use websites::site_export::{
    build_import_warnings, normalize_relative_path, publish_config_to_import,
    validate_site_export, ExportSitePublishConfig, SITE_EXPORT_FORMAT_VERSION,
};

fn ts(s: &str) -> Timestamp {
    Timestamp::parse_rfc3339(s).expect("valid timestamp")
}

#[test]
fn test_pagetype() {
    let post = PageType::Post;
    let page = PageType::Page;

    assert_eq!(post.as_ref(), "post");
    assert_eq!(page.as_ref(), "page");

    assert_eq!(post.to_string(), "post");
    assert_eq!(page.to_string(), "page");

    assert_eq!(
        PageType::from_str("post").expect("failed to parse page type"),
        PageType::Post
    );
    assert_eq!(
        PageType::from_str("page").expect("failed to parse page type"),
        PageType::Page
    );

    assert!(post.is_post());
    assert!(!post.is_page());

    assert!(!page.is_post());
    assert!(page.is_page());
}

fn item(page_type: PageType, slug: &str) -> ContentItem {
    ContentItem {
        id: "019f8e3a-0000-7000-8000-000000000001".to_string(),
        site_id: "019f8e3a-0000-7000-8000-000000000002".to_string(),
        page_type,
        title: "Title".to_string(),
        slug: slug.to_string(),
        page_content: "Body".to_string(),
        draft: false,
        creator_sub: "creator".to_string(),
        created_at: ts("2026-03-07T09:30:00Z"),
        last_updated: None,
        published_at: Some(ts("2026-03-08T12:00:00Z")),
    }
}

#[test]
fn content_primary_route_uses_slug_for_pages_and_date_prefix_for_posts() {
    let page = item(PageType::Page, "collegia-notes");
    let post = item(PageType::Post, "collegia-notes");
    assert_eq!(content_primary_route(&page), "collegia-notes");
    assert_eq!(content_primary_route(&post), "2026/03/08/collegia-notes");
}

#[test]
fn page_type_parse_rejects_unknown_names() {
    assert_eq!(parse_page_type(None), Ok(None));
    assert_eq!(parse_page_type(Some("post")), Ok(Some(PageType::Post)));
    assert_eq!(
        parse_page_type(Some("attachment")),
        Err("unsupported page type: attachment".to_string())
    );
}

#[test]
fn tag_names_are_trimmed_and_blank_ones_dropped() {
    assert_eq!(
        normalize_tag_names(vec![" ivf ".to_string(), "  ".to_string(), "News".to_string()]),
        vec!["ivf".to_string(), "News".to_string()]
    );
}

#[test]
fn asset_mime_filters_and_extensions() {
    assert_eq!(normalize_asset_mime_filter("jpg"), Some("image/jpeg"));
    assert_eq!(normalize_asset_mime_filter("svg"), Some("image/svg+xml"));
    assert_eq!(normalize_asset_mime_filter("all"), None);
    assert_eq!(normalize_asset_mime_filter("tiff"), None);
    assert_eq!(mime_from_extension("jpeg"), "image/jpeg");
    assert_eq!(mime_from_extension("webp"), "image/webp");
    assert_eq!(mime_from_extension("svg"), "application/octet-stream");
}

#[test]
fn unique_paths_keep_first_occurrence() {
    let mut paths = vec!["a".to_string()];
    push_unique_path(&mut paths, "b".to_string());
    push_unique_path(&mut paths, "a".to_string());
    assert_eq!(paths, vec!["a".to_string(), "b".to_string()]);
}

#[test]
fn slugs_from_titles_and_tags() {
    assert_eq!(normalize_slug("Hello, World!"), "hello-world");
    assert_eq!(normalize_slug("!!!"), "post");
    assert_eq!(sanitize_tag_slug("C++ & Rust"), "c-rust");
    assert_eq!(sanitize_tag_slug(""), "tag");
}

#[test]
fn site_export_version_and_short_name_are_checked() {
    assert!(validate_site_export(SITE_EXPORT_FORMAT_VERSION, "site").is_ok());
    match validate_site_export(SITE_EXPORT_FORMAT_VERSION + 1, "bad-version") {
        Err(SiteError::BadRequest(message)) => {
            assert_eq!(message, "unsupported site export format version: 3");
        }
        other => panic!("unexpected result: {other:?}"),
    }
    match validate_site_export(SITE_EXPORT_FORMAT_VERSION, "  ") {
        Err(SiteError::BadRequest(message)) => {
            assert_eq!(message, "site export is missing short_name");
        }
        other => panic!("unexpected result: {other:?}"),
    }
}

#[test]
fn import_warnings_count_asset_files_and_overrides() {
    assert_eq!(
        build_import_warnings(&[0, 2], 1),
        vec![
            "4 asset file reference(s) were not restored because site exports contain file metadata only.".to_string(),
            "1 template override file(s) were not restored because site exports contain file metadata only.".to_string(),
        ]
    );
    assert!(build_import_warnings(&[], 0).is_empty());
}

#[test]
fn relative_paths_join_components_with_slashes() {
    assert_eq!(normalize_relative_path("a//b/./c"), "a/b/c");
    assert_eq!(normalize_relative_path("templates/page.html"), "templates/page.html");
}

#[test]
fn disabled_export_publish_config_is_refused() {
    let config = ExportSitePublishConfig { method: PublishMethod::Disabled, s3: None, rsync: None };
    match publish_config_to_import(config) {
        Err(SiteError::BadRequest(message)) => {
            assert_eq!(message, "disabled publish configs cannot be imported");
        }
        other => panic!("unexpected result: {other:?}"),
    }
    let missing = ExportSitePublishConfig { method: PublishMethod::RsyncSsh, s3: None, rsync: None };
    assert!(matches!(
        publish_config_to_import(missing),
        Err(SiteError::BadRequest(m)) if m == "export publish config missing rsync settings"
    ));
}

#[test]
fn error_messages_name_their_kind() {
    assert_eq!(SiteError::BadRequest("x".to_string()).message(), "Invalid Input: x");
    assert_eq!(SiteError::NotFound.message(), "Not Found");
}
