//! What rendering a site writes: which content is public, where each page
//! goes, the index and feed entries, and the tag pages.
use crate::deps::{markdown_html_of, markdown_to_html, string_from_chars};
use crate::entities::{Asset, AssetVariant};
use crate::errors::SiteError;
use crate::shortcodes::{expand_asset_shortcodes, expanded};
use crate::entities::{publish_instant, ts_le, ContentItem, PageType, Timestamp};
use crate::site::{
    content_is_publishable_at, primary_route, primary_route_chars, sanitize_tag_slug, slug_or,
};
use crate::deps::unicode_lowercase_of;
use crate::strings::{
    chars_eq, push_all, str_chars, trim, trim_chars, trim_end, trim_end_chars, trim_start,
    trim_start_chars, CharPat,
};
use vstd::prelude::*;

verus! {

/// The content that is public at `now`, in order.
pub open spec fn publishable(items: Seq<ContentItem>, now: Timestamp) -> Seq<ContentItem>
    decreases items.len(),
{
    if items.len() == 0 {
        Seq::empty()
    } else {
        let prev = publishable(items.drop_last(), now);
        if ts_le(publish_instant(items.last()), now) {
            prev.push(items.last())
        } else {
            prev
        }
    }
}

/// The content that is public at `now`: its publish date has come.
pub fn publishable_content(items: Vec<ContentItem>, now: &Timestamp) -> (r: Vec<ContentItem>)
    ensures
        r@ == publishable(items@, *now),
{
    let ghost all = items@;
    let mut rest = items;
    let n: usize = rest.len();
    let mut out: Vec<ContentItem> = Vec::new();
    let mut k: usize = 0;
    proof {
        assert(all.take(0) =~= Seq::<ContentItem>::empty());
        assert(rest@ =~= all.skip(0));
    }
    while rest.len() > 0
        invariant
            k + rest@.len() == all.len(),
            all.len() == n,
            rest@ == all.skip(k as int),
            out@ == publishable(all.take(k as int), *now),
        decreases rest@.len(),
    {
        let x = rest.remove(0);
        proof {
            assert(x == all[k as int]);
            assert(rest@ =~= all.skip(k + 1));
            assert(all.take(k + 1).drop_last() =~= all.take(k as int));
        }
        if content_is_publishable_at(&x, now) {
            out.push(x);
        }
        k = k + 1;
    }
    proof {
        assert(all.take(k as int) =~= all);
    }
    out
}

/// Publication is permanent: content that is public at some time is still
/// public at any later time.
pub proof fn published_stays_published(items: Seq<ContentItem>, t1: Timestamp, t2: Timestamp, x: ContentItem)
    requires
        ts_le(t1, t2),
        publishable(items, t1).contains(x),
    ensures
        publishable(items, t2).contains(x),
    decreases items.len(),
{
    if items.len() > 0 {
        let d = items.drop_last();
        let p1 = publishable(d, t1);
        let p2 = publishable(d, t2);
        if p1.contains(x) {
            published_stays_published(d, t1, t2, x);
            let i = choose|i: int| 0 <= i < p2.len() && p2[i] == x;
            if ts_le(publish_instant(items.last()), t2) {
                assert(p2.push(items.last())[i] == x);
            }
        } else {
            assert(ts_le(publish_instant(items.last()), t1));
            assert(p1.push(items.last()).contains(x));
            let i = choose|i: int| 0 <= i < p1.len() + 1 && p1.push(items.last())[i] == x;
            assert(i == p1.len());
            assert(x == items.last());
            assert(p2.push(items.last())[p2.len() as int] == x);
        }
    }
}

/// The root-relative URL of a content item's primary route.
pub open spec fn primary_url_of(c: ContentItem) -> Seq<char> {
    seq!['/'] + trim(primary_route(c), CharPat::One('/'))
}

/// The root-relative URL of a content item.
pub fn primary_url(content: &ContentItem) -> (r: String)
    ensures
        r@ == primary_url_of(*content),
{
    let route = primary_route_chars(content);
    let mut v = vec!['/'];
    push_all(&mut v, trim_chars(route.as_slice(), &CharPat::One('/')).as_slice());
    string_from_chars(v.as_slice())
}

/// The routes of a page, each once: its primary route, then its aliases.
pub open spec fn routes_of(primary: Seq<char>, aliases: Seq<Seq<char>>) -> Seq<Seq<char>>
    decreases aliases.len(),
{
    if aliases.len() == 0 {
        seq![primary]
    } else {
        let prev = routes_of(primary, aliases.drop_last());
        if prev.contains(aliases.last()) {
            prev
        } else {
            prev.push(aliases.last())
        }
    }
}

/// The directory, under the output root, that a route is written to: the
/// route without leading and trailing slashes (empty for the root).
pub open spec fn route_dir(route: Seq<char>) -> Seq<char> {
    trim_start(trim_end(route, CharPat::One('/')), CharPat::One('/'))
}

/// The directories that a page is written to (its `index.html` in each),
/// one per distinct route.
pub fn page_output_dirs(content: &ContentItem, alias_paths: &[String]) -> (r: Vec<String>)
    ensures
        r@.map_values(|d: String| d@) == routes_of(
            primary_route(*content),
            alias_paths@.map_values(|a: String| a@),
        ).map_values(|route: Seq<char>| route_dir(route)),
{
    let ghost al = alias_paths@.map_values(|a: String| a@);
    let primary = primary_route_chars(content);
    let mut routes: Vec<Vec<char>> = Vec::new();
    routes.push(primary);
    let mut i: usize = 0;
    proof {
        assert(al.take(0) =~= Seq::<Seq<char>>::empty());
        assert(routes@.map_values(|x: Vec<char>| x@) =~= routes_of(primary_route(*content), al.take(0)));
    }
    while i < alias_paths.len()
        invariant
            0 <= i <= alias_paths@.len(),
            al == alias_paths@.map_values(|a: String| a@),
            routes@.map_values(|x: Vec<char>| x@) == routes_of(primary_route(*content), al.take(i as int)),
        decreases alias_paths@.len() - i,
    {
        proof {
            assert(al.take(i + 1).drop_last() =~= al.take(i as int));
            assert(al.take(i + 1).last() == alias_paths@[i as int]@);
        }
        let a = str_chars(alias_paths[i].as_str());
        let ghost prev = routes@.map_values(|x: Vec<char>| x@);
        let mut seen = false;
        let mut j: usize = 0;
        while j < routes.len()
            invariant
                0 <= j <= routes@.len(),
                prev == routes@.map_values(|x: Vec<char>| x@),
                seen == exists|k: int| 0 <= k < j && prev[k] == a@,
            decreases routes@.len() - j,
        {
            proof {
                assert(prev[j as int] == routes@[j as int]@);
            }
            if chars_eq(routes[j].as_slice(), a.as_slice()) {
                seen = true;
            }
            j = j + 1;
        }
        proof {
            if prev.contains(a@) {
                let k = choose|k: int| 0 <= k < prev.len() && prev[k] == a@;
                assert(0 <= k < j);
            }
        }
        if !seen {
            routes.push(a);
            proof {
                assert(routes@.map_values(|x: Vec<char>| x@) =~= prev.push(alias_paths@[i as int]@));
            }
        }
        i = i + 1;
    }
    proof {
        assert(al.take(i as int) =~= al);
    }
    let ghost rs = routes@.map_values(|x: Vec<char>| x@);
    let mut dirs: Vec<String> = Vec::new();
    let mut k: usize = 0;
    while k < routes.len()
        invariant
            0 <= k <= routes@.len(),
            rs == routes@.map_values(|x: Vec<char>| x@),
            dirs@.len() == k,
            forall|m: int| 0 <= m < k ==> (#[trigger] dirs@[m])@ == route_dir(rs[m]),
        decreases routes@.len() - k,
    {
        let d = trim_start_chars(
            trim_end_chars(routes[k].as_slice(), &CharPat::One('/')).as_slice(),
            &CharPat::One('/'),
        );
        dirs.push(string_from_chars(d.as_slice()));
        k = k + 1;
    }
    proof {
        assert(dirs@.map_values(|d: String| d@) =~= rs.map_values(|route: Seq<char>| route_dir(route)));
    }
    dirs
}

/// The directory of a tag's page: `tags/` and the tag's slug.
pub open spec fn tag_page_dir_of(name: Seq<char>) -> Seq<char> {
    "tags/"@ + slug_or(unicode_lowercase_of(name), "tag"@)
}

/// The directory, under the output root, of a tag's page.
pub fn tag_page_dir(tag_name: &str) -> (r: String)
    ensures
        r@ == tag_page_dir_of(tag_name@),
{
    let mut v = str_chars("tags/");
    push_all(&mut v, str_chars(sanitize_tag_slug(tag_name).as_str()).as_slice());
    string_from_chars(v.as_slice())
}

/// The entries of the site index: each public item's title and URL, in order.
pub fn index_entries(items: &[ContentItem]) -> (r: Vec<(String, String)>)
    ensures
        r@.len() == items@.len(),
        forall|i: int|
            0 <= i < items@.len() ==> (#[trigger] r@[i]).0@ == items@[i].title@ && r@[i].1@
                == primary_url_of(items@[i]),
{
    let mut out: Vec<(String, String)> = Vec::new();
    let mut i: usize = 0;
    while i < items.len()
        invariant
            0 <= i <= items@.len(),
            out@.len() == i,
            forall|j: int|
                0 <= j < i ==> (#[trigger] out@[j]).0@ == items@[j].title@ && out@[j].1@
                    == primary_url_of(items@[j]),
        decreases items@.len() - i,
    {
        out.push((items[i].title.clone(), primary_url(&items[i])));
        i = i + 1;
    }
    out
}

/// The entries of a tag's page: title and URL of each linked item that is
/// not a draft and is public at `now`, in order.
pub open spec fn tag_entries_of(items: Seq<ContentItem>, now: Timestamp) -> Seq<(Seq<char>, Seq<char>)>
    decreases items.len(),
{
    if items.len() == 0 {
        Seq::empty()
    } else {
        let prev = tag_entries_of(items.drop_last(), now);
        let c = items.last();
        if !c.draft && ts_le(publish_instant(c), now) {
            prev.push((c.title@, primary_url_of(c)))
        } else {
            prev
        }
    }
}

/// The entries of a tag's page, given the content linked to the tag.
pub fn tag_page_entries(linked: &[ContentItem], now: &Timestamp) -> (r: Vec<(String, String)>)
    ensures
        r@.map_values(|e: (String, String)| (e.0@, e.1@)) == tag_entries_of(linked@, *now),
{
    let mut out: Vec<(String, String)> = Vec::new();
    let mut i: usize = 0;
    proof {
        assert(linked@.take(0) =~= Seq::<ContentItem>::empty());
        assert(out@.map_values(|e: (String, String)| (e.0@, e.1@)) =~= Seq::<(Seq<char>, Seq<char>)>::empty());
    }
    while i < linked.len()
        invariant
            0 <= i <= linked@.len(),
            out@.map_values(|e: (String, String)| (e.0@, e.1@)) == tag_entries_of(linked@.take(i as int), *now),
        decreases linked@.len() - i,
    {
        proof {
            assert(linked@.take(i + 1).drop_last() =~= linked@.take(i as int));
            assert(linked@.take(i + 1).last() == linked@[i as int]);
        }
        let c = &linked[i];
        if !c.draft && content_is_publishable_at(c, now) {
            let ghost before = out@;
            out.push((c.title.clone(), primary_url(c)));
            proof {
                assert(out@.map_values(|e: (String, String)| (e.0@, e.1@)) =~= before.map_values(
                    |e: (String, String)| (e.0@, e.1@),
                ).push((c.title@, primary_url_of(*c))));
            }
        }
        i = i + 1;
    }
    proof {
        assert(linked@.take(i as int) =~= linked@);
    }
    out
}

/// The posts among content items, in order.
pub open spec fn posts_of(items: Seq<ContentItem>) -> Seq<ContentItem>
    decreases items.len(),
{
    if items.len() == 0 {
        Seq::empty()
    } else {
        let prev = posts_of(items.drop_last());
        if items.last().page_type == PageType::Post {
            prev.push(items.last())
        } else {
            prev
        }
    }
}

/// The posts among content items: what the feeds list.
pub fn feed_posts(items: &[ContentItem]) -> (r: Vec<ContentItem>)
    ensures
        r@ == posts_of(items@),
{
    let mut out: Vec<ContentItem> = Vec::new();
    let mut i: usize = 0;
    proof {
        assert(items@.take(0) =~= Seq::<ContentItem>::empty());
    }
    while i < items.len()
        invariant
            0 <= i <= items@.len(),
            out@ == posts_of(items@.take(i as int)),
        decreases items@.len() - i,
    {
        proof {
            assert(items@.take(i + 1).drop_last() =~= items@.take(i as int));
        }
        if items[i].page_type.is_post() {
            out.push(items[i].clone());
        }
        i = i + 1;
    }
    proof {
        assert(items@.take(i as int) =~= items@);
    }
    out
}

/// Adds `n` to a count of written files, saturating.
pub fn add_written(count: usize, n: usize) -> (r: usize)
    ensures
        r == (if count + n <= usize::MAX {
            (count + n) as usize
        } else {
            usize::MAX
        }),
{
    if count <= usize::MAX - n {
        count + n
    } else {
        usize::MAX
    }
}

/// What rendering Markdown comes to: the HTML, or an internal error naming
/// the renderer's message.
pub open spec fn markdown_outcome_of(result: Result<Seq<char>, Seq<char>>) -> Result<Seq<char>, Seq<char>> {
    match result {
        Ok(h) => Ok(h),
        Err(e) => Err("Failed to render markdown: "@ + e),
    }
}

/// The HTML of a rendered document, or the internal error that a failed
/// Markdown rendering is reported as.
pub fn markdown_outcome(result: Result<String, String>) -> (r: Result<String, SiteError>)
    ensures
        match markdown_outcome_of(
            match result {
                Ok(h) => Ok(h@),
                Err(e) => Err(e@),
            },
        ) {
            Ok(h) => r matches Ok(x) && x@ == h,
            Err(m) => r matches Err(SiteError::Internal(x)) && x@ == m,
        },
{
    match result {
        Ok(h) => Ok(h),
        Err(e) => {
            let mut v = str_chars("Failed to render markdown: ");
            push_all(&mut v, str_chars(e.as_str()).as_slice());
            Err(SiteError::internal(string_from_chars(v.as_slice())))
        },
    }
}

/// The HTML of a content item's body: its asset shortcodes expanded into
/// figures, then the Markdown rendered with raw HTML allowed.
pub fn render_content_html(source: &str, assets: &[Asset], variants: &[AssetVariant]) -> (r: Result<
    String,
    SiteError,
>)
    ensures
        match markdown_outcome_of(markdown_html_of(expanded(source@, assets@, variants@))) {
            Ok(h) => r matches Ok(x) && x@ == h,
            Err(m) => r matches Err(SiteError::Internal(x)) && x@ == m,
        },
{
    let expanded_source = expand_asset_shortcodes(source, assets, variants);
    markdown_outcome(markdown_to_html(expanded_source.as_str()))
}

} // verus!
