use websites::entities::PageType;
use websites::errors::SiteError;
use websites::wordpress::{
    parse_wordpress_wxr, plan_wordpress_import, resolve_wordpress_timestamp,
    unique_alias_paths, wordpress_date_to_utc, wordpress_link_to_alias,
};

const EXPORT: &str = r#"<?xml version="1.0" encoding="UTF-8"?>
<rss xmlns:wp="http://wordpress.org/export/1.2/" xmlns:content="http://purl.org/rss/1.0/modules/content/">
  <channel>
    <title>Site</title>
    <item>
      <title>Imported Post</title>
      <link>https://example.com/2020/01/imported-post/?p=123</link>
      <wp:post_id>123</wp:post_id>
      <wp:post_name>imported-post</wp:post_name>
      <wp:post_type>post</wp:post_type>
      <wp:status>publish</wp:status>
      <wp:post_date>2025-01-02 13:04:05</wp:post_date>
      <wp:post_date_gmt>2025-01-02 03:04:05</wp:post_date_gmt>
      <category domain="category" nicename="news"><![CDATA[News]]></category>
      <category domain="post_tag" nicename="ivf"><![CDATA[ivf]]></category>
      <content:encoded><![CDATA[Hello world]]></content:encoded>
    </item>
    <item>
      <title>Header Image</title>
      <wp:post_type>attachment</wp:post_type>
    </item>
    <item>
      <link>https://example.com/?p=999</link>
      <wp:post_id>999</wp:post_id>
      <wp:post_type> page </wp:post_type>
      <wp:post_date>2025-02-03 04:05:06</wp:post_date>
      <wp:post_date_gmt>0000-00-00 00:00:00</wp:post_date_gmt>
    </item>
  </channel>
</rss>
"#;

#[test]
fn wxr_items_gather_fields_and_post_tags() {
    let items = parse_wordpress_wxr(EXPORT).expect("parse");
    assert_eq!(items.len(), 3);
    assert_eq!(items[0].title.as_deref(), Some("Imported Post"));
    assert_eq!(items[0].content.as_deref(), Some("Hello world"));
    assert_eq!(items[0].tags, vec!["ivf".to_string()]);
    assert_eq!(items[1].post_type.as_deref(), Some("attachment"));
    assert_eq!(items[2].title, None);
}

#[test]
fn import_plans_follow_item_fields() {
    let items = parse_wordpress_wxr(EXPORT).expect("parse");
    let post = plan_wordpress_import(&items[0]).expect("post is imported");
    assert_eq!(post.page_type, PageType::Post);
    assert_eq!(post.slug, "imported-post");
    assert!(!post.draft);
    assert_eq!(post.created_at.as_ref().map(|t| t.secs()), Some(1735787045));
    assert_eq!(post.published_at.as_ref().map(|t| t.secs()), Some(1735787045));
    assert_eq!(
        post.known_aliases,
        vec!["/?p=123".to_string(), "/2020/01/imported-post/?p=123".to_string()]
    );
    assert!(plan_wordpress_import(&items[1]).is_none());
    let page = plan_wordpress_import(&items[2]).expect("page is imported");
    assert_eq!(page.page_type, PageType::Page);
    assert_eq!(page.title, "Untitled");
    assert_eq!(page.slug, "untitled");
    assert!(page.draft);
    assert!(page.published_at.is_none());
    assert_eq!(page.created_at.as_ref().map(|t| t.secs()), Some(1738555506));
    assert_eq!(unique_alias_paths(&page.known_aliases), vec!["/?p=999".to_string()]);
}

#[test]
fn wordpress_dates_and_links() {
    assert!(wordpress_date_to_utc("0000-00-00 00:00:00").is_none());
    assert!(wordpress_date_to_utc("  ").is_none());
    assert!(wordpress_date_to_utc("not a date").is_none());
    assert_eq!(
        resolve_wordpress_timestamp(Some("bad"), Some("1970-01-01 00:01:40")).map(|t| t.secs()),
        Some(100)
    );
    assert_eq!(wordpress_link_to_alias("/about/"), Some("/about/".to_string()));
    assert_eq!(wordpress_link_to_alias("about"), None);
    assert_eq!(wordpress_link_to_alias("https://example.com"), Some("/".to_string()));
}

#[test]
fn malformed_export_is_a_parsing_error() {
    match parse_wordpress_wxr("<rss><item></channel></rss>") {
        Err(SiteError::XmlParsing(_)) => {}
        other => panic!("unexpected: {other:?}"),
    }
}

const WXR_HEAD: &str = r#"<?xml version="1.0" encoding="UTF-8"?>
<rss xmlns:wp="http://wordpress.org/export/1.2/" xmlns:content="http://purl.org/rss/1.0/modules/content/">
  <channel>
"#;
const WXR_TAIL: &str = "  </channel>\n</rss>\n";

fn plans(body: &str) -> Vec<websites::wordpress::WordpressImport> {
    let xml = format!("{WXR_HEAD}{body}{WXR_TAIL}");
    parse_wordpress_wxr(&xml)
        .expect("parses")
        .iter()
        .filter_map(plan_wordpress_import)
        .collect()
}

#[test]
fn import_wordpress_falls_back_to_non_gmt_timestamps() {
    let imported = plans(
        r#"    <item>
      <title>Imported Page</title>
      <link>https://example.com/imported-page/</link>
      <wp:post_id>124</wp:post_id>
      <wp:post_name>imported-page</wp:post_name>
      <wp:post_type>page</wp:post_type>
      <wp:status>publish</wp:status>
      <wp:post_date>2025-02-03 04:05:06</wp:post_date>
      <wp:post_modified>2025-02-04 05:06:07</wp:post_modified>
      <content:encoded><![CDATA[Hello page]]></content:encoded>
    </item>
"#,
    );
    assert_eq!(imported.len(), 1);
    let page = &imported[0];
    assert_eq!(page.page_type, PageType::Page);
    let created = page.created_at.as_ref().expect("created_at");
    assert_eq!(created.secs(), 1738555506);
    let updated = page.updated_at.as_ref().expect("last_updated");
    assert_eq!(updated.secs(), 1738645567);
    assert_eq!(page.published_at.as_ref().map(|t| t.secs()), Some(created.secs()));
}

#[test]
fn import_wordpress_skips_unsupported_item_types() {
    let imported = plans(
        r#"    <item>
      <title>Imported Post</title>
      <link>https://example.com/2020/01/imported-post/?p=123</link>
      <wp:post_id>123</wp:post_id>
      <wp:post_name>imported-post</wp:post_name>
      <wp:post_type>post</wp:post_type>
      <wp:status>publish</wp:status>
      <content:encoded><![CDATA[Hello world]]></content:encoded>
    </item>
    <item>
      <title>Imported Page</title>
      <link>https://example.com/about/</link>
      <wp:post_id>456</wp:post_id>
      <wp:post_name>about</wp:post_name>
      <wp:post_type>page</wp:post_type>
      <wp:status>publish</wp:status>
      <content:encoded><![CDATA[About page]]></content:encoded>
    </item>
    <item>
      <title>Header Image</title>
      <link>https://example.com/wp-content/uploads/header.jpg</link>
      <wp:post_id>789</wp:post_id>
      <wp:post_name>header-jpg</wp:post_name>
      <wp:post_type>attachment</wp:post_type>
      <wp:status>inherit</wp:status>
      <content:encoded><![CDATA[]]></content:encoded>
    </item>
    <item>
      <title></title>
      <link>https://example.com/?p=999</link>
      <wp:post_id>999</wp:post_id>
      <wp:status>publish</wp:status>
      <content:encoded><![CDATA[]]></content:encoded>
    </item>
"#,
    );
    assert_eq!(imported.len(), 2);
    assert_eq!(imported[0].page_type, PageType::Post);
    assert_eq!(imported[0].slug, "imported-post");
    assert_eq!(imported[1].page_type, PageType::Page);
    assert_eq!(imported[1].slug, "about");
}

#[test]
fn import_wordpress_deduplicates_equivalent_aliases_per_item() {
    let imported = plans(
        r#"    <item>
      <title>Imported Post</title>
      <link>https://example.com/?p=123</link>
      <wp:post_id>123</wp:post_id>
      <wp:post_name>imported-post</wp:post_name>
      <wp:post_type>post</wp:post_type>
      <wp:status>publish</wp:status>
      <content:encoded><![CDATA[Hello world]]></content:encoded>
    </item>
"#,
    );
    assert_eq!(imported.len(), 1);
    let aliases = unique_alias_paths(&imported[0].known_aliases);
    assert_eq!(aliases, vec!["/?p=123".to_string()]);
}
