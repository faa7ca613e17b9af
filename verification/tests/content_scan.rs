use websites::content_scan::{
    format_asset_shortcode, parse_domain_list, render_asset_figure_html,
    resolve_asset_render_candidate, AssetReference, AssetRenderCandidate, ScanContext,
};
use websites::entities::{Asset, AssetVariant, ContentAlias, ContentItem, PageType, Timestamp};
use websites::links::{clip_snippet, normalize_internal_path};
use websites::scanner::{apply_issue_replacements, scan_content, ScanAction};
use websites::shortcodes::{expand_asset_shortcodes, shortcode_asset_ids};

const ASSET_ID: &str = "019f8e3a-f4ba-7c91-9c8e-2fc19e4c16e1";

fn chars(s: &str) -> Vec<char> {
    s.chars().collect()
}

fn text(v: Vec<char>) -> String {
    v.into_iter().collect()
}

fn ts(s: &str) -> Timestamp {
    Timestamp::parse_rfc3339(s).expect("valid timestamp")
}

fn sample_content(title: &str, slug: &str, body: &str) -> ContentItem {
    ContentItem {
        id: "019f8e3a-0000-7000-8000-000000000001".to_string(),
        site_id: "019f8e3a-0000-7000-8000-000000000002".to_string(),
        page_type: PageType::Page,
        title: title.to_string(),
        slug: slug.to_string(),
        page_content: body.to_string(),
        draft: true,
        creator_sub: "creator".to_string(),
        created_at: ts("2026-03-10T12:00:00Z"),
        last_updated: None,
        published_at: None,
    }
}

fn header_asset() -> AssetReference {
    AssetReference {
        asset_id: ASSET_ID.to_string(),
        variant: "original".to_string(),
        asset_label: "header.png".to_string(),
    }
}

fn context_for_tests() -> ScanContext {
    ScanContext {
        internal_domains: vec!["example.com".to_string()],
        link_targets: vec![(
            text(normalize_internal_path(&chars("/legacy/path/"))),
            "Linked Page".to_string(),
            "/legacy/path/".to_string(),
        )],
        asset_matches: vec![("header.png".to_string(), header_asset())],
    }
}

#[test]
fn parse_domain_list_deduplicates() {
    assert_eq!(
        parse_domain_list("example.com,\nwww.example.com\nexample.com"),
        vec!["example.com".to_string(), "www.example.com".to_string()]
    );
}

#[test]
fn scans_and_rewrites_plain_internal_url() {
    let context = context_for_tests();
    let content = sample_content("Body", "body", "See https://example.com/legacy/path/ for more.");
    let report = scan_content(&content, &context);
    assert_eq!(report.issues.len(), 1);
    assert_eq!(report.issues[0].kind, "bare_url");
    assert_eq!(
        report.issues[0].proposed_value.as_deref(),
        Some("[Linked Page](/legacy/path/)")
    );
}

#[test]
fn scans_html_link_to_markdown() {
    let context = context_for_tests();
    let content = sample_content(
        "Body",
        "body",
        "<a href=\"https://example.com/legacy/path/\">Read more</a>",
    );
    let report = scan_content(&content, &context);
    assert_eq!(report.issues[0].kind, "html_link");
    assert_eq!(
        report.issues[0].proposed_value.as_deref(),
        Some("[Read more](/legacy/path/)")
    );
}

#[test]
fn scans_html_image_to_shortcode() {
    let context = context_for_tests();
    let content = sample_content(
        "Body",
        "body",
        "<img src=\"https://example.com/uploads/header.png\" alt=\"Hero\" />",
    );
    let report = scan_content(&content, &context);
    assert_eq!(report.issues[0].kind, "html_image");
    assert!(report.issues[0]
        .proposed_value
        .as_deref()
        .unwrap_or_default()
        .starts_with("[[asset id=\"019f8e3a-f4ba-7c91-9c8e-2fc19e4c16e1\""));
}

#[test]
fn scans_inline_tags() {
    let context = context_for_tests();
    let content = sample_content(
        "Body",
        "body",
        "<p>Para</p><strong>Bold</strong><b>More</b><i>Italic</i>",
    );
    let report = scan_content(&content, &context);
    let kinds = report.issues.into_iter().map(|issue| issue.kind).collect::<Vec<_>>();
    assert!(kinds.contains(&"paragraph".to_string()));
    assert!(kinds.contains(&"strong".to_string()));
    assert!(kinds.contains(&"bold".to_string()));
    assert!(kinds.contains(&"italic".to_string()));
}

#[test]
fn scans_review_only_markup() {
    let context = context_for_tests();
    let content = sample_content(
        "Body",
        "body",
        "<div class=\"hero\" style=\"color:red\"><script>alert(1)</script></div>",
    );
    let report = scan_content(&content, &context);
    let kinds = report.issues.into_iter().map(|issue| issue.kind).collect::<Vec<_>>();
    assert!(kinds.contains(&"inline_style".to_string()));
    assert!(kinds.contains(&"inline_class".to_string()));
    assert!(kinds.contains(&"dangerous_html".to_string()));
    assert!(kinds.contains(&"complex_html".to_string()));
}

#[test]
fn renders_figure_markup() {
    let candidate = AssetRenderCandidate {
        filename: "photo.png".to_string(),
        width: Some(640),
        height: Some(480),
    };
    let html = render_asset_figure_html(&candidate, "Alt", Some("Caption"));
    assert!(html.contains("<figure><img"));
    assert!(html.contains("<figcaption>Caption</figcaption>"));
    assert!(html.contains("width=\"640\""));
    assert!(html.contains("height=\"480\""));
}

#[test]
fn clip_snippet_handles_multibyte_characters() {
    let content = format!(
        "<a href=\"https://youtu.be/7IIBp1HQlWQ?si=C-oBsMI8ufTRXQpm\" data-type=\"link\" data-id=\"https://youtu.be/7IIBp1HQlWQ?si=C-oBsMI8ufTRXQpm\">{}</a>",
        "…".repeat(80)
    );
    let clipped = clip_snippet(&content, 0, content.len());
    assert!(clipped.ends_with("..."));
    assert!(clipped.starts_with("<a href="));
}

#[test]
fn figure_markup_is_exact_and_skips_blank_caption_and_zero_sizes() {
    let candidate = AssetRenderCandidate {
        filename: "a&b.png".to_string(),
        width: Some(0),
        height: None,
    };
    assert_eq!(
        render_asset_figure_html(&candidate, "x\"y", Some("  ")),
        "<figure><img src=\"/media/images/a&amp;b.png\" alt=\"x&quot;y\" loading=\"lazy\" /></figure>"
    );
}

#[test]
fn shortcode_escapes_and_adds_non_blank_title() {
    assert_eq!(
        format_asset_shortcode(ASSET_ID, "thumb\"nail", "A \\ B", Some("T")),
        "[[asset id=\"019f8e3a-f4ba-7c91-9c8e-2fc19e4c16e1\" variant=\"thumb\\\"nail\" alt=\"A \\\\ B\" title=\"T\"]]"
    );
    assert_eq!(
        format_asset_shortcode(ASSET_ID, "original", "Hero", Some(" ")),
        "[[asset id=\"019f8e3a-f4ba-7c91-9c8e-2fc19e4c16e1\" variant=\"original\" alt=\"Hero\"]]"
    );
}

fn sample_asset() -> Asset {
    Asset {
        id: ASSET_ID.to_string(),
        original_filename: "Header.PNG".to_string(),
        storage_basename: "stored-header.png".to_string(),
        width: Some(800),
        height: Some(600),
    }
}

fn thumbnail_variant() -> AssetVariant {
    AssetVariant {
        asset_id: ASSET_ID.to_string(),
        variant_kind: "thumbnail".to_string(),
        filename: "stored-header-thumb.png".to_string(),
        width: Some(80),
        height: Some(60),
    }
}

#[test]
fn render_candidate_picks_original_or_first_variant_of_kind() {
    let asset = sample_asset();
    let variants = vec![thumbnail_variant()];
    let original = resolve_asset_render_candidate(&asset, &variants, "original").expect("original");
    assert_eq!(original.filename, "stored-header.png");
    assert_eq!(original.width, Some(800));
    let thumb = resolve_asset_render_candidate(&asset, &variants, "thumbnail").expect("thumbnail");
    assert_eq!(thumb.filename, "stored-header-thumb.png");
    assert!(resolve_asset_render_candidate(&asset, &variants, "large").is_none());
}

#[test]
fn build_context_links_aliases_and_content_routes_and_matches_assets() {
    let mut content = sample_content("About Us", "about", "Body");
    content.id = "019f8e3a-0000-7000-8000-0000000000aa".to_string();
    let alias = ContentAlias {
        content_id: content.id.clone(),
        alias_path: "/old/about.html".to_string(),
    };
    let orphan = ContentAlias {
        content_id: "019f8e3a-0000-7000-8000-0000000000ff".to_string(),
        alias_path: "/gone/".to_string(),
    };
    let ctx = ScanContext::build(
        &["example.com".to_string()],
        &[content],
        &[alias, orphan],
        &[sample_asset()],
        &[thumbnail_variant()],
    );
    assert_eq!(ctx.link_targets.len(), 2);
    assert_eq!(ctx.link_targets[0].1, "About Us");
    assert_eq!(ctx.link_targets[1].2, "/about/");
    let source = sample_content(
        "Body",
        "body",
        "[old](/old/about.html#team) ![hero](https://example.com/img/stored-header-thumb.png)",
    );
    let report = scan_content(&source, &ctx);
    assert_eq!(report.issues.len(), 2);
    assert_eq!(report.issues[0].kind, "markdown_link");
    assert_eq!(
        report.issues[0].proposed_value.as_deref(),
        Some("[old](/old/about.html/#team)")
    );
    assert_eq!(report.issues[1].kind, "markdown_image");
    match &report.issues[1].action {
        ScanAction::ReplaceAsset { suggested_asset: Some(a), .. } => {
            assert_eq!(a.asset_id, ASSET_ID);
            assert_eq!(a.variant, "thumbnail");
            assert_eq!(a.asset_label, "Header.PNG");
        }
        other => panic!("unexpected action: {other:?}"),
    }
}

#[test]
fn unmatched_remote_image_offers_import_and_claims_span() {
    let ctx = context_for_tests();
    let content = sample_content(
        "Body",
        "body",
        "![x](https://cdn.example.net/pics/missing.jpg) https://example.com/legacy/path/.",
    );
    let report = scan_content(&content, &ctx);
    assert_eq!(report.issues.len(), 2);
    assert_eq!(report.issues[0].kind, "markdown_image");
    assert_eq!(report.issues[0].proposed_value, None);
    match &report.issues[0].action {
        ScanAction::ReplaceAsset { remote_url, suggested_asset, .. } => {
            assert_eq!(remote_url.as_deref(), Some("https://cdn.example.net/pics/missing.jpg"));
            assert!(suggested_asset.is_none());
        }
        other => panic!("unexpected action: {other:?}"),
    }
    assert_eq!(report.issues[1].kind, "bare_url");
    assert_eq!(report.issues[1].current_value, "https://example.com/legacy/path/");
    assert_eq!(report.issues[1].end - report.issues[1].start, 32);
}

#[test]
fn bare_url_inside_tag_is_not_reported_and_external_url_is_wrapped() {
    let ctx = context_for_tests();
    let content = sample_content("Body", "body", "<x data=https://example.com/a> see https://other.org/q");
    let report = scan_content(&content, &ctx);
    assert_eq!(report.issues.len(), 1);
    assert_eq!(report.issues[0].proposed_value.as_deref(), Some("<https://other.org/q>"));
    assert_eq!(report.issues[0].issue_id, "bare_url:35:54");
}

#[test]
fn applied_replacements_come_latest_first_with_manual_asset_and_remote_import() {
    let ctx = context_for_tests();
    let content = sample_content(
        "Body",
        "body",
        "<p>One</p> ![a](https://cdn.example.net/a.jpg) ![b](https://cdn.example.net/b.jpg) <div>",
    );
    let report = scan_content(&content, &ctx);
    let ids: Vec<String> = report.issues.iter().map(|i| i.issue_id.clone()).collect();
    assert_eq!(ids.len(), 4);
    let manual = vec![(ids[1].clone(), header_asset())];
    let applied = apply_issue_replacements(
        &content.page_content,
        &report.issues,
        &ids,
        &manual,
        &[ids[2].clone()],
    );
    assert_eq!(applied.len(), 3);
    assert_eq!(applied[0].issue_id, ids[2]);
    assert_eq!(applied[0].kind, "__remote_import__");
    assert_eq!(applied[0].replacement, "https://cdn.example.net/b.jpg");
    assert_eq!(applied[1].issue_id, ids[1]);
    assert!(applied[1].replacement.starts_with("[[asset id=\"019f8e3a"));
    assert_eq!(applied[2].replacement, "One\n\n");
    assert!(applied.windows(2).all(|w| w[0].start >= w[1].start));
}

#[test]
fn unselected_issues_are_not_applied() {
    let ctx = context_for_tests();
    let content = sample_content("Body", "body", "<b>x</b>");
    let report = scan_content(&content, &ctx);
    let applied = apply_issue_replacements(&content.page_content, &report.issues, &[], &[], &[]);
    assert!(applied.is_empty());
}

#[test]
fn shortcodes_expand_to_figures_and_unknown_ones_stay() {
    let source = format!(
        "Intro [[asset id=\"{ASSET_ID}\" variant=\"thumbnail\" alt=\"A\" title=\" Cap \"]] and [[asset id=\"not-a-uuid\" variant=\"original\" alt=\"\"]] end"
    );
    let out = expand_asset_shortcodes(&source, &[sample_asset()], &[thumbnail_variant()]);
    assert_eq!(
        out,
        "Intro <figure><img src=\"/media/images/stored-header-thumb.png\" alt=\"A\" loading=\"lazy\" width=\"80\" height=\"60\" /><figcaption>Cap</figcaption></figure> and [[asset id=\"not-a-uuid\" variant=\"original\" alt=\"\"]] end"
    );
    assert_eq!(shortcode_asset_ids(&source), vec![ASSET_ID.to_string()]);
    assert_eq!(expand_asset_shortcodes("plain", &[], &[]), "plain");
}
