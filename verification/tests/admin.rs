use websites::cli::parse_site_role;
use websites::entities::SiteRole;
use websites::assets::media_file_names;
use websites::entities::{Asset, AssetVariant};
use websites::render::tag_page_entries;
use websites::errors::{error_response, ErrorBody};
use websites::site_export::{asset_export_key, content_export_key, export_order};
use websites::mass_asset_import::{candidate_queries, match_local_asset, order_candidates, IndexedLocalAsset, LocalAssetCandidate, LocalAssetCandidateRank};
use websites::site_export::{validate_site_export, SITE_EXPORT_FORMAT_VERSION};
use websites::templates::bundled_site_templates_roots;
use websites::templates::template_fallback_paths;
use websites::templates::should_load_template;
use websites::render::{markdown_outcome, render_content_html};
use websites::publish::{mirror_outcome, planned_uploads};
use websites::content_edit::apply_imported_content_timestamps;
use websites::api::{
    api_error_from, parse_optional_datetime, api_error_response_parts, check_update_has_fields, library_default_limit,
    list_limit, retain_page_type, search_text, ApiError,
};
use websites::assets::{
    collect_asset_filenames, storage_basename, stored_dimension, thumbnail_filename,
    upload_extension, upload_mime_type,
};
use websites::content_edit::{
    apply_content_update, initial_published_at, next_revision_number, UpdateContent,
};
use websites::csrf::CsrfTokens;
use websites::cli::{listing_url, parse_optional_datetime as parse_cli_datetime};
use websites::entities::{ContentItem, InternalDomains, PageType, Timestamp};
use websites::mass_asset_import::{check_import_candidate_file, check_import_candidate_location};
use websites::publish::stale_object_keys;
use websites::errors::SiteError;
use websites::render::{
    add_written, feed_posts, index_entries, page_output_dirs, primary_url, publishable_content,
    tag_page_dir,
};
use websites::session::{
    asset_cache_control, check_oidc_callback, login_redirect, no_store_headers,
};
use websites::tags::{distinct_tag_names, tag_links_to_remove};

fn ts(s: &str) -> Timestamp {
    Timestamp::parse_rfc3339(s).expect("valid timestamp")
}

fn item(page_type: PageType, slug: &str, draft: bool, published: Option<&str>) -> ContentItem {
    ContentItem {
        id: format!("id-{slug}"),
        site_id: "site-1".to_string(),
        page_type,
        title: format!("Title {slug}"),
        slug: slug.to_string(),
        page_content: "Body".to_string(),
        draft,
        creator_sub: "creator".to_string(),
        created_at: ts("2026-03-07T09:30:00Z"),
        last_updated: None,
        published_at: published.map(ts),
    }
}

fn no_update() -> UpdateContent {
    UpdateContent {
        page_type: None,
        title: None,
        slug: None,
        page_content: None,
        draft: None,
        published_at: None,
    }
}

fn strings(v: &[&str]) -> Vec<String> {
    v.iter().map(|s| s.to_string()).collect()
}

#[test]
fn csrf_token_is_accepted_once() {
    let mut tokens = CsrfTokens::new();
    tokens.issue("site-form", "abc123".to_string());
    assert!(tokens.validate("site-form", "abc123").is_ok());
    match tokens.validate("site-form", "abc123") {
        Err(SiteError::BadRequest(m)) => assert_eq!(m, "missing csrf state"),
        other => panic!("unexpected {other:?}"),
    }
}

#[test]
fn csrf_refuses_blank_and_wrong_tokens_without_consuming() {
    let mut tokens = CsrfTokens::new();
    tokens.issue("login", "tok".to_string());
    match tokens.validate("login", "   ") {
        Err(SiteError::BadRequest(m)) => assert_eq!(m, "missing csrf token"),
        other => panic!("unexpected {other:?}"),
    }
    match tokens.validate("login", "other") {
        Err(SiteError::BadRequest(m)) => assert_eq!(m, "invalid csrf token"),
        other => panic!("unexpected {other:?}"),
    }
    assert!(tokens.validate("login", "tok").is_ok());
}

#[test]
fn csrf_reissue_replaces_the_scope_token() {
    let mut tokens = CsrfTokens::new();
    tokens.issue("a", "first".to_string());
    tokens.issue("b", "bee".to_string());
    tokens.issue("a", "second".to_string());
    assert_eq!(tokens.entries().len(), 2);
    assert!(tokens.validate("a", "first").is_err());
    assert!(tokens.validate("a", "second").is_ok());
    assert!(tokens.validate("b", "bee").is_ok());
}

#[test]
fn csrf_from_entries_keeps_the_last_pair_of_a_scope() {
    let mut tokens = CsrfTokens::from_entries(vec![
        ("x".to_string(), "1".to_string()),
        ("x".to_string(), "2".to_string()),
    ]);
    assert_eq!(tokens.entries().len(), 1);
    assert!(tokens.validate("x", "2").is_ok());
}

#[test]
fn new_content_publish_date() {
    let now = ts("2026-04-01T10:00:00Z");
    let given = ts("2026-01-01T00:00:00Z");
    assert_eq!(
        initial_published_at(false, None, now.clone()).map(|t| t.secs()),
        Some(now.secs())
    );
    assert_eq!(
        initial_published_at(false, Some(given.clone()), now.clone()).map(|t| t.secs()),
        Some(given.secs())
    );
    assert!(initial_published_at(true, None, now.clone()).is_none());
    assert_eq!(
        initial_published_at(true, Some(given.clone()), now).map(|t| t.secs()),
        Some(given.secs())
    );
}

#[test]
fn empty_update_only_sets_last_updated() {
    let now = ts("2026-04-01T10:00:00Z");
    let c = item(PageType::Post, "hello", false, Some("2026-03-08T12:00:00Z"));
    let r = apply_content_update(c.clone(), no_update(), now.clone());
    assert_eq!(r.title, c.title);
    assert_eq!(r.slug, c.slug);
    assert_eq!(r.draft, c.draft);
    assert_eq!(r.published_at.map(|t| t.secs()), c.published_at.map(|t| t.secs()));
    assert_eq!(r.last_updated.map(|t| t.secs()), Some(now.secs()));
}

#[test]
fn publishing_a_draft_sets_publish_date_to_now() {
    let now = ts("2026-04-01T10:00:00Z");
    let c = item(PageType::Page, "about", true, None);
    let mut u = no_update();
    u.draft = Some(false);
    u.title = Some("About us".to_string());
    let r = apply_content_update(c, u, now.clone());
    assert!(!r.draft);
    assert_eq!(r.title, "About us");
    assert_eq!(r.published_at.map(|t| t.secs()), Some(now.secs()));
}

#[test]
fn revision_numbers_count_up_and_saturate() {
    assert_eq!(next_revision_number(0), Some(1));
    assert_eq!(next_revision_number(41), Some(42));
    assert_eq!(next_revision_number(i32::MAX as usize), Some(i32::MAX));
    assert_eq!(next_revision_number(i32::MAX as usize + 1), None);
}

#[test]
fn only_content_whose_date_has_come_is_published() {
    let now = ts("2026-04-01T00:00:00Z");
    let items = vec![
        item(PageType::Post, "old", false, Some("2026-03-01T00:00:00Z")),
        item(PageType::Post, "future", false, Some("2026-05-01T00:00:00Z")),
        item(PageType::Page, "page", false, Some("2026-02-01T00:00:00Z")),
    ];
    let slugs: Vec<String> = publishable_content(items, &now)
        .into_iter()
        .map(|c| c.slug)
        .collect();
    assert_eq!(slugs, strings(&["old", "page"]));
}

#[test]
fn page_routes_and_urls() {
    let post = item(PageType::Post, "hello", false, Some("2026-03-08T12:00:00Z"));
    assert_eq!(primary_url(&post), "/2026/03/08/hello");
    let dirs = page_output_dirs(&post, &strings(&["/old/hello/", "2026/03/08/hello", "/old/hello/"]));
    assert_eq!(dirs, strings(&["2026/03/08/hello", "old/hello"]));
    let dirs = page_output_dirs(&post, &strings(&["/old/hello/", "/old/hello"]));
    assert_eq!(dirs, strings(&["2026/03/08/hello", "old/hello", "old/hello"]));
    let page = item(PageType::Page, "about", false, Some("2026-03-08T12:00:00Z"));
    assert_eq!(primary_url(&page), "/about");
}

#[test]
fn index_and_feed_entries() {
    let items = vec![
        item(PageType::Post, "one", false, Some("2026-03-08T12:00:00Z")),
        item(PageType::Page, "two", false, Some("2026-03-09T12:00:00Z")),
    ];
    let entries = index_entries(&items);
    assert_eq!(
        entries,
        vec![
            ("Title one".to_string(), "/2026/03/08/one".to_string()),
            ("Title two".to_string(), "/two".to_string()),
        ]
    );
    let posts: Vec<String> = feed_posts(&items).into_iter().map(|c| c.slug).collect();
    assert_eq!(posts, strings(&["one"]));
}

#[test]
fn tag_page_directories() {
    assert_eq!(tag_page_dir("Rust Lang"), "tags/rust-lang");
    assert_eq!(tag_page_dir("!!!"), "tags/tag");
}

#[test]
fn written_counts_saturate() {
    assert_eq!(add_written(3, 4), 7);
    assert_eq!(add_written(usize::MAX - 1, 5), usize::MAX);
}

#[test]
fn upload_names() {
    assert_eq!(upload_extension("Photo.JPG"), "jpg");
    assert_eq!(upload_extension("README"), "bin");
    assert_eq!(storage_basename("0190-abc", "png"), "0190-abc.png");
    assert_eq!(thumbnail_filename("0190-abc.png", "webp"), "0190-abc_thumb.webp");
    assert_eq!(stored_dimension(640), Some(640));
    assert_eq!(stored_dimension(0), None);
    assert_eq!(stored_dimension(u32::MAX), None);
    assert_eq!(websites::assets::stored_byte_length(1234), 1234);
    assert_eq!(websites::assets::stored_byte_length(usize::MAX), i32::MAX);
    assert_eq!(upload_mime_type(None, "png"), "image/png");
    assert_eq!(upload_mime_type(Some("image/gif".to_string()), "png"), "image/gif");
}

#[test]
fn asset_filenames_are_sorted_and_distinct() {
    let r = collect_asset_filenames("b.png", &strings(&["c.webp", "a.webp", "b.png", "c.webp"]));
    assert_eq!(r, strings(&["a.webp", "b.png", "c.webp"]));
}

#[test]
fn tag_names_and_links() {
    assert_eq!(
        distinct_tag_names(&strings(&[" rust ", "", "web", "rust", "  "])),
        strings(&["rust", "web"])
    );
    assert_eq!(
        tag_links_to_remove(&strings(&["rust", "old", "web", "stale"]), &strings(&["web", "rust", "new"])),
        strings(&["old", "stale"])
    );
}

#[test]
fn oidc_callback_checks() {
    assert_eq!(
        check_oidc_callback(None, None, Some("code-1"), Some("st"), Some("st")).ok(),
        Some("code-1".to_string())
    );
    match check_oidc_callback(None, None, Some("code-1"), Some("st"), Some("other")) {
        Err(SiteError::UnAuthorized(m)) => assert_eq!(m, "OIDC state mismatch"),
        other => panic!("unexpected {other:?}"),
    }
    match check_oidc_callback(None, None, None, Some("st"), Some("st")) {
        Err(SiteError::UnAuthorized(m)) => assert_eq!(m, "missing authorization code"),
        other => panic!("unexpected {other:?}"),
    }
    match check_oidc_callback(None, None, Some("c"), None, Some("st")) {
        Err(SiteError::UnAuthorized(m)) => assert_eq!(m, "missing state"),
        other => panic!("unexpected {other:?}"),
    }
    match check_oidc_callback(Some("access_denied"), Some("no"), None, None, None) {
        Err(SiteError::Internal(m)) => assert_eq!(m, "OIDC error: access_denied no"),
        other => panic!("unexpected {other:?}"),
    }
}

#[test]
fn response_headers() {
    assert_eq!(asset_cache_control("/admin/assets/1.png", true), Some("private, max-age=300"));
    assert_eq!(asset_cache_control("/admin/assets/1.png", false), None);
    assert_eq!(asset_cache_control("/admin/sites", true), None);
    let h = no_store_headers();
    assert_eq!(h.len(), 3);
    assert_eq!(h[1], ("pragma", "no-cache"));
    assert_eq!(login_redirect(false), Some("/admin/login"));
    assert_eq!(login_redirect(true), None);
}

#[test]
fn api_errors_map_to_responses() {
    let e = api_error_from(SiteError::SiteNotFound("blog".to_string()));
    match &e {
        ApiError::NotFound(m) => assert_eq!(m, "site not found: blog"),
        other => panic!("unexpected {other:?}"),
    }
    assert_eq!(api_error_response_parts(&e), (404, "Not Found", None));
    let e = api_error_from(SiteError::UnAuthorized("no token".to_string()));
    assert_eq!(api_error_response_parts(&e), (401, "Unauthorized", Some("Bearer")));
    let e = api_error_from(SiteError::Database("down".to_string()));
    assert_eq!(api_error_response_parts(&e).0, 500);
    let e = api_error_from(SiteError::BadRequest("bad".to_string()));
    assert_eq!(api_error_response_parts(&e).0, 400);
}

#[test]
fn listing_limits_and_search() {
    assert_eq!(list_limit(None, library_default_limit(false)), 12);
    assert_eq!(list_limit(None, library_default_limit(true)), 50);
    assert_eq!(list_limit(Some(0), 12), 1);
    assert_eq!(list_limit(Some(1000), 12), 200);
    assert_eq!(list_limit(Some(30), 12), 30);
    assert_eq!(search_text("  rust  "), Ok("rust".to_string()));
    assert_eq!(search_text("   "), Err("missing q query parameter".to_string()));
    assert!(check_update_has_fields(false, false, false, false, false, false, true).is_ok());
    assert_eq!(
        check_update_has_fields(false, false, false, false, false, false, false),
        Err("request body did not include any updatable fields".to_string())
    );
}

#[test]
fn retain_page_type_filters_and_limits() {
    let items = vec![
        item(PageType::Post, "a", false, None),
        item(PageType::Page, "b", false, None),
        item(PageType::Post, "c", false, None),
        item(PageType::Post, "d", false, None),
    ];
    let r: Vec<String> = retain_page_type(items.clone(), Some(PageType::Post), 2)
        .into_iter()
        .map(|c| c.slug)
        .collect();
    assert_eq!(r, strings(&["a", "c"]));
    let r: Vec<String> = retain_page_type(items, None, 10).into_iter().map(|c| c.slug).collect();
    assert_eq!(r, strings(&["a", "b", "c", "d"]));
}

#[test]
fn api_published_at_parameter() {
    assert!(matches!(parse_optional_datetime(None), Ok(None)));
    let t = parse_optional_datetime(Some("2026-03-08T12:00:00+02:00")).expect("parses");
    assert_eq!(t.map(|t| t.secs()), Some(ts("2026-03-08T10:00:00Z").secs()));
    match parse_optional_datetime(Some("not-a-date")) {
        Err(ApiError::BadRequest(m)) => assert_eq!(m, "invalid published_at: premature end of input"),
        other => panic!("unexpected {other:?}"),
    }
}

#[test]
fn cli_datetime_argument() {
    assert!(matches!(parse_cli_datetime(None, "published_at"), Ok(None)));
    assert!(matches!(parse_cli_datetime(Some("   ".to_string()), "published_at"), Ok(None)));
    let t = parse_cli_datetime(Some(" 2026-03-08T12:00:00Z ".to_string()), "published_at")
        .expect("parses");
    assert_eq!(t.map(|t| t.secs()), Some(ts("2026-03-08T12:00:00Z").secs()));
    match parse_cli_datetime(Some("2026-03-08 12:00".to_string()), "published_at") {
        Err(m) => assert_eq!(m, "Invalid published_at datetime: premature end of input"),
        Ok(_) => panic!("should not parse"),
    }
    match parse_cli_datetime(Some("2026-13-08T12:00:00Z".to_string()), "published_at") {
        Err(m) => assert_eq!(m, "Invalid published_at datetime: input is out of range"),
        Ok(_) => panic!("should not parse"),
    }
}

#[test]
fn listing_urls_end_with_a_slash() {
    let post = item(PageType::Post, "/hello/", false, Some("2026-03-08T12:00:00Z"));
    assert_eq!(listing_url(&post), "/2026/03/08/hello/");
    let page = item(PageType::Page, "about", false, None);
    assert_eq!(listing_url(&page), "/about/");
}

#[test]
fn import_candidates_must_be_image_files_under_the_root() {
    assert!(check_import_candidate_location("/srv/import", "/srv/import/a/b.png").is_ok());
    match check_import_candidate_location("/srv/import", "/srv/imports/b.png") {
        Err(SiteError::BadRequest(m)) => {
            assert_eq!(m, "import candidate is outside the configured import path")
        }
        other => panic!("unexpected {other:?}"),
    }
    assert!(check_import_candidate_location("/srv/import", "/srv").is_err());
    assert!(check_import_candidate_file("/srv/import/b.PNG", true).is_ok());
    match check_import_candidate_file("/srv/import/b.png", false) {
        Err(SiteError::BadRequest(m)) => assert_eq!(m, "import candidate is not a file"),
        other => panic!("unexpected {other:?}"),
    }
    match check_import_candidate_file("/srv/import/b.txt", true) {
        Err(SiteError::BadRequest(m)) => {
            assert_eq!(m, "import candidate is not a supported image file")
        }
        other => panic!("unexpected {other:?}"),
    }
}

#[test]
fn mirror_deletes_only_unpublished_keys() {
    let remote = strings(&["site/index.html", "site/old.html", "site/a/index.html", "site/gone.css"]);
    let expected = strings(&["site/index.html", "site/a/index.html", "site/new.html"]);
    assert_eq!(
        stale_object_keys(&remote, &expected),
        strings(&["site/old.html", "site/gone.css"])
    );
}

#[test]
fn internal_domains_round_trip() {
    let d = InternalDomains::from(strings(&["example.com", "www.example.com"]));
    assert_eq!(d.0.len(), 2);
    assert_eq!(d.into_vec(), strings(&["example.com", "www.example.com"]));
}

#[test]
fn bundled_template_roots_are_distinct_and_ordered() {
    assert_eq!(
        bundled_site_templates_roots(Some("/opt/app/bin"), "/src/websites"),
        strings(&[
            "./site_templates/",
            "/site_templates",
            "/opt/app/bin/site_templates",
            "/opt/app/site_templates",
            "/src/websites/site_templates",
        ])
    );
    assert_eq!(
        bundled_site_templates_roots(Some("/"), "/src/websites"),
        strings(&["./site_templates/", "/site_templates", "/src/websites/site_templates"])
    );
    assert_eq!(
        bundled_site_templates_roots(None, "/src/websites"),
        strings(&["./site_templates/", "/site_templates", "/src/websites/site_templates"])
    );
}

#[test]
fn missing_templates_fall_back_in_order() {
    let roots = strings(&["./site_templates/", "/site_templates"]);
    assert_eq!(
        template_fallback_paths("/data/templates/fancy", "post.html", &roots),
        strings(&[
            "./site_templates/fancy/post.html",
            "/site_templates/fancy/post.html",
            "/data/templates/default/post.html",
            "./site_templates/default/post.html",
            "/site_templates/default/post.html",
        ])
    );
    assert_eq!(
        template_fallback_paths("/site_templates/default", "rss.xml", &strings(&["/site_templates"])),
        strings(&["/site_templates/default/rss.xml"])
    );
}

#[test]
fn which_template_files_are_loaded() {
    let loaded = strings(&["index.html", "post.html"]);
    assert!(should_load_template("extra.html", &loaded));
    assert!(should_load_template("sitemap.xml", &loaded));
    assert!(!should_load_template("index.html", &loaded));
    assert!(!should_load_template("style.css", &loaded));
}

#[test]
fn content_html_renders_markdown_after_shortcodes() {
    assert_eq!(render_content_html("# Hi Mercury!", &[], &[]).ok(), Some("<h1>Hi Mercury!</h1>".to_string()));
    assert_eq!(
        render_content_html("<div>raw</div>", &[], &[]).ok(),
        Some("<div>raw</div>".to_string())
    );
    match markdown_outcome(Err("boom".to_string())) {
        Err(SiteError::Internal(m)) => assert_eq!(m, "Failed to render markdown: boom"),
        other => panic!("unexpected {other:?}"),
    }
    assert_eq!(markdown_outcome(Ok("<p>x</p>".to_string())).ok(), Some("<p>x</p>".to_string()));
}

#[test]
fn mirror_uploads_carry_keys_and_media_types() {
    let files = vec![
        ("a/index.html".to_string(), "/tmp/r/a/index.html".to_string()),
        ("style.css".to_string(), "/tmp/r/style.css".to_string()),
        ("data".to_string(), "/tmp/r/data".to_string()),
    ];
    assert_eq!(
        planned_uploads(" /site/ ", &files),
        vec![
            ("site/a/index.html".to_string(), "text/html".to_string()),
            ("site/style.css".to_string(), "text/css".to_string()),
            ("site/data".to_string(), "application/octet-stream".to_string()),
        ]
    );
    let o = mirror_outcome(3, 1);
    assert_eq!((o.rendered_file_count, o.published_file_count, o.deleted_object_count), (3, 3, 1));
}

#[test]
fn imported_timestamps_replace_the_dates_given() {
    let c = item(PageType::Post, "x", false, None);
    let created = ts("2020-01-01T00:00:00Z");
    let updated = ts("2021-01-01T00:00:00Z");
    let same = apply_imported_content_timestamps(c.clone(), None, None);
    assert_eq!(same.created_at.secs(), c.created_at.secs());
    assert!(same.last_updated.is_none());
    let r = apply_imported_content_timestamps(c.clone(), Some(created.clone()), None);
    assert_eq!(r.created_at.secs(), created.secs());
    assert!(r.last_updated.is_none());
    let r = apply_imported_content_timestamps(c.clone(), None, Some(updated.clone()));
    assert_eq!(r.created_at.secs(), c.created_at.secs());
    assert_eq!(r.last_updated.map(|t| t.secs()), Some(updated.secs()));
}

#[test]
fn rejects_candidates_outside_import_root() {
    let err = check_import_candidate_location("/tmp/t/import", "/tmp/t/outside/hero.jpg")
        .expect_err("outside candidate should be rejected");
    assert!(err.message().contains("outside"));
}

#[test]
fn ranks_path_suffix_matches_before_filename_matches() {
    let queries = candidate_queries(&strings(&["/wp-content/uploads/2024/hero.jpg"]));
    let files = [
        IndexedLocalAsset::new("/tmp/t/wp-content/uploads/2024/hero.jpg", "wp-content/uploads/2024/hero.jpg", 4),
        IndexedLocalAsset::new("/tmp/t/elsewhere/hero.jpg", "elsewhere/hero.jpg", 4),
    ];
    let mut found = Vec::new();
    for file in files.iter().rev() {
        for (_, rank) in match_local_asset(file, &queries) {
            found.push(LocalAssetCandidate {
                absolute_path: file.absolute_path.clone(),
                relative_path: file.relative_path.clone(),
                rank,
                byte_length: file.byte_length,
            });
        }
    }
    let matches = order_candidates(found, 10);
    assert_eq!(matches.len(), 2);
    assert_eq!(matches[0].relative_path, "wp-content/uploads/2024/hero.jpg");
    assert_eq!(matches[0].rank, LocalAssetCandidateRank::PathSuffix);
    assert_eq!(matches[1].rank, LocalAssetCandidateRank::Filename);
}

#[test]
fn mirror_rendered_tree_uploads_and_deletes_stale_objects() {
    let files = vec![
        ("index.html".to_string(), "/tmp/root/index.html".to_string()),
        ("nested/app.css".to_string(), "/tmp/root/nested/app.css".to_string()),
    ];
    let uploads = websites::publish::planned_uploads("", &files);
    let keys: Vec<String> = uploads.iter().map(|u| u.0.clone()).collect();
    let mut remote = strings(&["old.txt"]);
    for key in &keys {
        if !remote.contains(key) {
            remote.push(key.clone());
        }
    }
    let stale = stale_object_keys(&remote, &keys);
    let outcome = websites::publish::mirror_outcome(files.len(), stale.len());
    assert_eq!(outcome.rendered_file_count, 2);
    assert_eq!(outcome.published_file_count, 2);
    assert_eq!(outcome.deleted_object_count, 1);
    assert!(keys.contains(&"index.html".to_string()));
    assert!(keys.contains(&"nested/app.css".to_string()));
    assert_eq!(stale, strings(&["old.txt"]));
    assert_eq!(uploads[1].1, "text/css");
}

#[test]
fn deserialize_site_export_rejects_unsupported_versions() {
    match validate_site_export(SITE_EXPORT_FORMAT_VERSION + 1, "bad-version") {
        Err(SiteError::BadRequest(message)) => {
            assert!(message.contains("unsupported site export format version"));
        }
        other => panic!("unexpected error: {other:?}"),
    }
}

#[test]
fn exports_list_records_in_key_order() {
    let items = vec![
        item(PageType::Post, "b-post", false, None),
        item(PageType::Page, "z-page", false, None),
        item(PageType::Post, "a-post", false, None),
        item(PageType::Page, "a-page", false, None),
    ];
    let keys: Vec<Vec<String>> = items.iter().map(content_export_key).collect();
    let order = export_order(&keys);
    let slugs: Vec<&str> = order.iter().map(|&i| items[i].slug.as_str()).collect();
    assert_eq!(slugs, vec!["a-page", "z-page", "a-post", "b-post"]);

    let keys = vec![
        vec!["same".to_string(), "2".to_string()],
        vec!["same".to_string(), "1".to_string()],
        vec!["Same".to_string(), "9".to_string()],
        vec!["same".to_string(), "1".to_string()],
    ];
    assert_eq!(export_order(&keys), vec![2, 1, 3, 0]);
    assert!(export_order(&Vec::new()).is_empty());
}

#[test]
fn asset_export_keys_use_filename_then_id() {
    let asset = websites::entities::Asset {
        id: "0190-a".to_string(),
        original_filename: "hero.jpg".to_string(),
        storage_basename: "0190-a.jpg".to_string(),
        width: None,
        height: None,
    };
    assert_eq!(asset_export_key(&asset), strings(&["hero.jpg", "0190-a"]));
}

#[test]
fn errors_are_answered_by_kind() {
    match error_response(&SiteError::NotFound) {
        (404, ErrorBody::Text(t)) => assert_eq!(t, "Not Found"),
        other => panic!("unexpected {other:?}"),
    }
    match error_response(&SiteError::BadRequest("bad slug".to_string())) {
        (400, ErrorBody::JsonFields { message, key, value }) => {
            assert_eq!((message, key, value.as_str()), ("Invalid Input", "details", "bad slug"));
        }
        other => panic!("unexpected {other:?}"),
    }
    match error_response(&SiteError::SiteNotFound("blog".to_string())) {
        (404, ErrorBody::JsonFields { message, key, value }) => {
            assert_eq!((message, key, value.as_str()), ("Site Not Found", "identifier", "blog"));
        }
        other => panic!("unexpected {other:?}"),
    }
    match error_response(&SiteError::UnAuthorized("session expired".to_string())) {
        (401, ErrorBody::ErrorPage { title, message }) => {
            assert_eq!(title, "Unauthorized: session expired");
            assert_eq!(message, "Please log in to access this page. session expired");
        }
        other => panic!("unexpected {other:?}"),
    }
    match error_response(&SiteError::Io("disk full".to_string())) {
        (500, ErrorBody::JsonString(m)) => assert_eq!(m, "disk full"),
        other => panic!("unexpected {other:?}"),
    }
    match error_response(&SiteError::XmlParsing("eof".to_string())) {
        (500, ErrorBody::JsonFields { message, .. }) => assert_eq!(message, "XML Parsing Error"),
        other => panic!("unexpected {other:?}"),
    }
}

#[test]
fn render_site_tag_pages_skip_future_scheduled_content() {
    let now = ts("2026-04-01T12:00:00Z");
    let mut current = item(PageType::Post, "current-post", false, Some("2026-03-31T12:00:00Z"));
    current.title = "Current Post".to_string();
    let mut future = item(PageType::Post, "future-post", false, Some("2026-04-08T12:00:00Z"));
    future.title = "Future Post".to_string();
    let draft = item(PageType::Post, "draft-post", true, Some("2026-03-01T12:00:00Z"));
    assert_eq!(tag_page_dir("Schedule"), "tags/schedule");
    let entries = tag_page_entries(&[current, future, draft], &now);
    assert_eq!(
        entries,
        vec![("Current Post".to_string(), "/2026/03/31/current-post".to_string())]
    );
}

#[test]
fn rendered_sites_carry_each_media_file_once() {
    let asset = |id: &str, stored: &str| Asset {
        id: id.to_string(),
        original_filename: format!("{id}.png"),
        storage_basename: stored.to_string(),
        width: None,
        height: None,
    };
    let variant = |asset_id: &str, file: &str| AssetVariant {
        asset_id: asset_id.to_string(),
        variant_kind: "thumbnail".to_string(),
        filename: file.to_string(),
        width: None,
        height: None,
    };
    let files = media_file_names(
        &[asset("b", "b.png"), asset("a", "a.png")],
        &[variant("a", "a_thumb.png"), variant("b", "b.png"), variant("a", "a_thumb.png")],
    );
    assert_eq!(files, strings(&["a.png", "a_thumb.png", "b.png"]));
}

#[test]
fn fresh_csrf_tokens_and_upload_names_are_uuids() {
    let mut tokens = CsrfTokens::new();
    let token = tokens.issue_csrf_token("site-form");
    assert_eq!(token.len(), 36);
    assert!(token.chars().all(|c| c == '-' || c.is_ascii_hexdigit()));
    assert!(tokens.validate("site-form", &token).is_ok());
    let other = tokens.issue_csrf_token("site-form");
    assert_ne!(token, other);

    let name = websites::assets::new_storage_basename("png");
    assert!(name.ends_with(".png"));
    assert_eq!(name.len(), 36 + 4);
}

#[test]
fn template_overrides_live_under_the_upload_root() {
    assert_eq!(
        websites::templates::template_override_root("/srv/uploads", "0190-site"),
        "/srv/uploads/.site-template-overrides/0190-site"
    );
}

#[test]
fn timestamps_beyond_four_digit_years_still_parse() {
    let late = Timestamp::parse_rfc3339("9999-12-31T23:59:59-01:00").expect("parses");
    assert_eq!(late.year(), 10000);
    let early = Timestamp::parse_rfc3339("0000-01-01T00:00:00+01:00").expect("parses");
    assert_eq!(early.year(), -1);
    assert!(websites::cli::parse_optional_datetime(
        Some("9999-12-31T23:59:59-01:00".to_string()),
        "published_at"
    )
    .expect("parses")
    .is_some());
    assert!(parse_optional_datetime(Some("0000-01-01T00:00:00+01:00")).expect("parses").is_some());
    assert_eq!(ts("2003-07-01T10:52:37Z").to_rfc2822(), "Tue, 1 Jul 2003 10:52:37 +0000");
}

#[test]
fn customizable_template_files() {
    assert!(websites::templates::is_customizable_template_file("page.html"));
    assert!(websites::templates::is_customizable_template_file("base_template.html"));
    assert!(websites::templates::is_customizable_template_file("atom.xml"));
    assert!(!websites::templates::is_customizable_template_file("style.css"));
    assert!(!websites::templates::is_customizable_template_file("Page.html"));
}

#[test]
fn decoding_undoes_html_escaping() {
    for text in ["a < b && c > \"d\"", "&amp; &lt; &#39; plain", "", "'quoted'"] {
        let chars: Vec<char> = text.chars().collect();
        let escaped = websites::links::escape_html(&chars);
        let decoded = websites::links::html_entity_decode(&escaped);
        assert_eq!(decoded.iter().collect::<String>(), text);
    }
}

#[test]
fn post_and_tag_slugs_differ_only_in_fallback() {
    assert_eq!(websites::site::normalize_slug("Hello, World!"), "hello-world");
    assert_eq!(websites::site::sanitize_tag_slug("Hello, World!"), "hello-world");
    assert_eq!(websites::site::normalize_slug("!!!"), "post");
    assert_eq!(websites::site::sanitize_tag_slug("!!!"), "tag");
}

#[test]
fn site_roles_and_import_checks() {
    assert_eq!(parse_site_role("editor"), Ok(SiteRole::Editor));
    assert_eq!(parse_site_role("owner"), Ok(SiteRole::Owner));
    assert_eq!(parse_site_role("admin"), Err("invalid site role: admin".to_string()));
    assert!(websites::site_export::check_import_short_name("blog", false).is_ok());
    match websites::site_export::check_import_short_name("blog", true) {
        Err(SiteError::BadRequest(m)) => assert_eq!(m, "site short_name already exists: blog"),
        other => panic!("unexpected {other:?}"),
    }
    assert!(websites::site_export::check_membership_user("m1", "u1", "u1").is_ok());
    match websites::site_export::check_membership_user("m1", "u1", "u2") {
        Err(SiteError::BadRequest(m)) => assert_eq!(m, "membership m1 has mismatched embedded user id"),
        other => panic!("unexpected {other:?}"),
    }
}

#[test]
fn edits_record_a_revision_snapshot() {
    let c = item(PageType::Page, "about", false, Some("2026-03-08T12:00:00Z"));
    let now = ts("2026-04-01T10:00:00Z");
    let r = websites::content_edit::revision_snapshot(&c, 3, "editor-1", now.clone());
    assert_eq!(r.revision_number, 3);
    assert_eq!((r.content_id.as_str(), r.slug.as_str(), r.editor_sub.as_str()), ("id-about", "about", "editor-1"));
    assert_eq!(r.page_type, PageType::Page);
    assert_eq!(r.created_at.secs(), now.secs());
}

#[test]
fn attribute_names_with_regex_meta_characters() {
    assert_eq!(
        websites::scanner::extract_html_attribute(r#"class="x" data-id="42""#, "data-id"),
        Some("42".to_string())
    );
}
