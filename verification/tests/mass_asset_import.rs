use websites::entities::{ContentItem, PageType, Timestamp};
use websites::mass_asset_import::{
    build_candidate_query, candidate_queries, extract_asset_links, find_missing_asset_groups,
    match_local_asset, normalize_asset_link, normalize_asset_path, order_candidates,
    rank_indexed_local_asset, string_has_image_extension, IndexedLocalAsset,
    LocalAssetCandidate, LocalAssetCandidateRank,
};

fn content(id: &str, title: &str, body: &str, created_at: &str) -> ContentItem {
    ContentItem {
        id: id.to_string(),
        site_id: "019f8e3a-0000-7000-8000-000000000002".to_string(),
        page_type: PageType::Post,
        title: title.to_string(),
        slug: title.to_lowercase().replace(' ', "-"),
        page_content: body.to_string(),
        draft: false,
        creator_sub: "tester".to_string(),
        created_at: Timestamp::parse_rfc3339(created_at).expect("invalid created_at"),
        last_updated: None,
        published_at: None,
    }
}

#[test]
fn normalizes_internal_and_relative_image_links_to_root_relative_paths() {
    let domains = vec!["example.com".to_string()];

    assert_eq!(
        normalize_asset_link("/wp-content/uploads/hero.jpg", &domains),
        Some("/wp-content/uploads/hero.jpg".to_string())
    );
    assert_eq!(
        normalize_asset_link("wp-content/uploads/hero.jpg", &domains),
        Some("/wp-content/uploads/hero.jpg".to_string())
    );
    assert_eq!(
        normalize_asset_link(
            "https://www.example.com/wp-content/uploads/hero.jpg?size=large",
            &domains
        ),
        Some("/wp-content/uploads/hero.jpg".to_string())
    );
    assert_eq!(
        normalize_asset_link("https://external.example.net/wp-content/uploads/hero.jpg", &domains),
        None
    );
}

#[test]
fn groups_reused_asset_paths_newest_content_first() {
    let domains = vec!["example.com".to_string()];
    let older = content(
        "019f8e3a-0000-7000-8000-000000000011",
        "Older",
        r#"<p><img src="https://example.com/uploads/shared.jpg" /></p>"#,
        "2026-01-01T00:00:00Z",
    );
    let newer = content(
        "019f8e3a-0000-7000-8000-000000000012",
        "Newer",
        r#"[download](uploads/shared.jpg) ![Hero](/uploads/other.png)"#,
        "2026-01-03T00:00:00Z",
    );
    let newest = content(
        "019f8e3a-0000-7000-8000-000000000013",
        "Newest",
        r#"![Shared](/uploads/shared.jpg)"#,
        "2026-01-05T00:00:00Z",
    );

    let groups = find_missing_asset_groups(vec![older, newer, newest], &domains, 10);

    assert_eq!(groups.len(), 2);
    assert_eq!(groups[0].normalized_path, "/uploads/shared.jpg");
    assert_eq!(groups[0].occurrence_count, 3);
    assert_eq!(
        groups[0].affected_content.iter().map(|item| item.title.as_str()).collect::<Vec<_>>(),
        vec!["Newest", "Newer", "Older"]
    );
    assert_eq!(groups[1].normalized_path, "/uploads/other.png");
}

#[test]
fn group_limit_drops_new_paths_but_keeps_counting_known_ones() {
    let domains = vec!["example.com".to_string()];
    let a = content(
        "019f8e3a-0000-7000-8000-000000000021",
        "A",
        "![x](/a.png) ![y](/b.png) ![z](/a.png)",
        "2026-01-01T00:00:00Z",
    );
    let groups = find_missing_asset_groups(vec![a], &domains, 1);
    assert_eq!(groups.len(), 1);
    assert_eq!(groups[0].normalized_path, "/a.png");
    assert_eq!(groups[0].occurrence_count, 2);
    assert_eq!(groups[0].affected_content.len(), 1);
    assert_eq!(groups[0].affected_content[0].occurrence_count, 2);
    assert!(find_missing_asset_groups(vec![], &domains, 0).is_empty());
}

#[test]
fn asset_paths_need_an_image_extension() {
    assert!(string_has_image_extension("/x/Photo.JPEG"));
    assert!(!string_has_image_extension("/x/doc.pdf"));
    assert_eq!(normalize_asset_path("  //a/b.png#top"), Some("/a/b.png".to_string()));
    assert_eq!(normalize_asset_path("a.png?x=1"), None);
    assert_eq!(normalize_asset_path("   "), None);
}

#[test]
fn extracted_links_are_ordered_by_position() {
    let domains = vec!["example.com".to_string()];
    let links = extract_asset_links(
        "<a href='/docs/c.gif'>c</a> ![b](/b.png) <img src=\"https://example.com/a.jpg\">",
        &domains,
    );
    let paths: Vec<&str> = links.iter().map(|l| l.normalized_path.as_str()).collect();
    assert_eq!(paths, vec!["/docs/c.gif", "/b.png", "/a.jpg"]);
    assert_eq!(links[0].start, 0);
    assert_eq!(links[0].original_link, "/docs/c.gif");
}

#[test]
fn ranks_path_suffix_before_filename_and_orders_candidates() {
    let query = build_candidate_query("/wp-content/uploads/2024/hero.jpg").expect("query");
    assert_eq!(query.normalized_relative, "wp-content/uploads/2024/hero.jpg");
    assert_eq!(query.normalized_suffix, "/wp-content/uploads/2024/hero.jpg");
    assert_eq!(query.filename, "hero.jpg");
    assert!(build_candidate_query("///").is_none());

    let full = IndexedLocalAsset::new(
        "/import/wp-content/uploads/2024/hero.jpg",
        "wp-content/uploads/2024/hero.jpg",
        4,
    );
    let by_name = IndexedLocalAsset::new("/import/elsewhere/HERO.jpg", "elsewhere/HERO.jpg", 4);
    let other = IndexedLocalAsset::new("/import/other.png", "other.png", 5);
    assert_eq!(
        rank_indexed_local_asset(&full, &query),
        Some(LocalAssetCandidateRank::PathSuffix)
    );
    assert_eq!(
        rank_indexed_local_asset(&by_name, &query),
        Some(LocalAssetCandidateRank::Filename)
    );
    assert_eq!(rank_indexed_local_asset(&other, &query), None);

    let queries = candidate_queries(&[
        "/wp-content/uploads/2024/hero.jpg".to_string(),
        "/wp-content/uploads/2024/hero.jpg".to_string(),
        "/other.png".to_string(),
    ]);
    assert_eq!(queries.len(), 2);
    assert_eq!(match_local_asset(&other, &queries), vec![(1, LocalAssetCandidateRank::PathSuffix)]);

    let candidate = |rel: &str, rank| LocalAssetCandidate {
        absolute_path: format!("/import/{rel}"),
        relative_path: rel.to_string(),
        rank,
        byte_length: 1,
    };
    let ordered = order_candidates(
        vec![
            candidate("z/hero.jpg", LocalAssetCandidateRank::Filename),
            candidate("b/hero.jpg", LocalAssetCandidateRank::PathSuffix),
            candidate("a/hero.jpg", LocalAssetCandidateRank::Filename),
        ],
        2,
    );
    let rels: Vec<&str> = ordered.iter().map(|c| c.relative_path.as_str()).collect();
    assert_eq!(rels, vec!["b/hero.jpg", "a/hero.jpg"]);
}
