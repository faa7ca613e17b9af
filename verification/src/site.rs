//! Routes, slugs, tag links and feed entries of a rendered site.
use crate::deps::{string_from_chars, unicode_lowercase, unicode_lowercase_of};
use crate::links::{lemma_replace_skips, lemma_replace_takes, lemma_token_safe, no_match_start};
use crate::entities::{publish_instant, rfc2822_ok, ts_le, ContentItem, PageType, Timestamp};
use crate::strings::{
    ascii_lower, char_is_ascii_alnum, chars_of, concat, is_ascii_alnum, join, lead_len, lemma_lead_len_bound,
    lemma_trail_len_bound, pad_decimal, pad_decimal_chars, push_all, replace, replace_chars,
    str_chars, trail_len, trim, trim_chars, CharPat,
};
use vstd::prelude::*;

verus! {

/// The date path `YYYY/MM/DD` of an instant.
pub open spec fn date_path(t: Timestamp) -> Seq<char> {
    pad_decimal(t.spec_year() as int, 4) + seq!['/'] + pad_decimal(t.spec_month() as int, 2)
        + seq!['/'] + pad_decimal(t.spec_day() as int, 2)
}

/// The primary route of a content item: its slug for pages, the slug under the
/// publish date for posts.
pub open spec fn primary_route(c: ContentItem) -> Seq<char> {
    let slug = trim(c.slug@, CharPat::One('/'));
    if c.page_type == PageType::Page {
        slug
    } else {
        date_path(publish_instant(c)) + seq!['/'] + slug
    }
}

fn date_path_chars(t: &Timestamp) -> (v: Vec<char>)
    ensures
        v@ == date_path(*t),
{
    let mut v = pad_decimal_chars(t.year() as i64, 4);
    v.push('/');
    let m = pad_decimal_chars(t.month() as i64, 2);
    push_all(&mut v, m.as_slice());
    v.push('/');
    let d = pad_decimal_chars(t.day() as i64, 2);
    push_all(&mut v, d.as_slice());
    v
}

/// The primary route of a content item, as characters.
pub fn primary_route_chars(content: &ContentItem) -> (v: Vec<char>)
    ensures
        v@ == primary_route(*content),
{
    let slug_chars = str_chars(content.slug.as_str());
    let slug = trim_chars(slug_chars.as_slice(), &CharPat::One('/'));
    if content.page_type.is_page() {
        return slug;
    }
    let mut v = match &content.published_at {
        Some(t) => date_path_chars(t),
        None => date_path_chars(&content.created_at),
    };
    v.push('/');
    push_all(&mut v, slug.as_slice());
    v
}

/// The path under which a content item is primarily served.
pub fn content_primary_route(content: &ContentItem) -> (r: String)
    ensures
        r@ == primary_route(*content),
{
    let v = primary_route_chars(content);
    string_from_chars(v.as_slice())
}

/// Whether a content item is public at `now`: its publish instant has come.
pub fn content_is_publishable_at(content: &ContentItem, now: &Timestamp) -> (b: bool)
    ensures
        b == ts_le(publish_instant(*content), *now),
{
    match &content.published_at {
        Some(t) => t.le(now),
        None => content.created_at.le(now),
    }
}

/// The slug builder's pass over the characters: alphanumerics are kept, each run
/// of other characters becomes one dash. The flag says whether the last
/// character written is such a dash.
pub open spec fn dash_runs(s: Seq<char>) -> (Seq<char>, bool)
    decreases s.len(),
{
    if s.len() == 0 {
        (Seq::empty(), false)
    } else {
        let (acc, prev) = dash_runs(s.drop_last());
        let c = s.last();
        if is_ascii_alnum(c) {
            (acc.push(c), false)
        } else if !prev {
            (acc.push('-'), true)
        } else {
            (acc, prev)
        }
    }
}

/// The slug of a name, or `fallback` when nothing is left of it.
pub open spec fn slug_or(lowered: Seq<char>, fallback: Seq<char>) -> Seq<char> {
    let t = trim(dash_runs(lowered).0, CharPat::One('-'));
    if t.len() == 0 {
        fallback
    } else {
        t
    }
}

/// A slug: ASCII alphanumerics and single dashes, neither first nor last.
pub open spec fn is_slug(s: Seq<char>) -> bool {
    &&& s.len() > 0
    &&& forall|i: int| 0 <= i < s.len() ==> is_ascii_alnum(#[trigger] s[i]) || s[i] == '-'
    &&& s[0] != '-'
    &&& s.last() != '-'
    &&& forall|i: int| 0 <= i < s.len() - 1 ==> !(#[trigger] s[i] == '-' && s[i + 1] == '-')
}

proof fn lemma_dash_runs(s: Seq<char>)
    ensures
        forall|i: int|
            0 <= i < dash_runs(s).0.len() ==> is_ascii_alnum(#[trigger] dash_runs(s).0[i])
                || dash_runs(s).0[i] == '-',
        forall|i: int|
            0 <= i < dash_runs(s).0.len() - 1 ==> !(#[trigger] dash_runs(s).0[i] == '-'
                && dash_runs(s).0[i + 1] == '-'),
        dash_runs(s).1 == (dash_runs(s).0.len() > 0 && dash_runs(s).0.last() == '-'),
    decreases s.len(),
{
    if s.len() > 0 {
        lemma_dash_runs(s.drop_last());
        let (acc, prev) = dash_runs(s.drop_last());
        let c = s.last();
        if is_ascii_alnum(c) {
            assert forall|i: int| 0 <= i < acc.push(c).len() - 1 implies !(#[trigger] acc.push(
                c,
            )[i] == '-' && acc.push(c)[i + 1] == '-') by {
                if i + 1 < acc.len() {
                    assert(acc.push(c)[i] == acc[i]);
                    assert(acc.push(c)[i + 1] == acc[i + 1]);
                }
            }
        } else if !prev {
            assert forall|i: int| 0 <= i < acc.push('-').len() - 1 implies !(
            #[trigger] acc.push('-')[i] == '-' && acc.push('-')[i + 1] == '-') by {
                if i + 1 < acc.len() {
                    assert(acc.push('-')[i] == acc[i]);
                    assert(acc.push('-')[i + 1] == acc[i + 1]);
                } else {
                    assert(acc.push('-')[i] == acc[i]);
                }
            }
        }
    }
}

/// The trimmed builder output is a slug when it is not empty.
proof fn lemma_slug_or(lowered: Seq<char>, fallback: Seq<char>)
    requires
        is_slug(fallback),
    ensures
        is_slug(slug_or(lowered, fallback)),
{
    let acc = dash_runs(lowered).0;
    lemma_dash_runs(lowered);
    let p = CharPat::One('-');
    lemma_lead_len_bound(acc, p);
    let mid = acc.skip(lead_len(acc, p) as int);
    lemma_trail_len_bound(mid, p);
    let t = trim(acc, p);
    let a = lead_len(acc, p) as int;
    assert(t =~= acc.subrange(a, a + mid.len() - trail_len(mid, p)));
    if t.len() > 0 {
        assert forall|i: int| 0 <= i < t.len() implies is_ascii_alnum(#[trigger] t[i]) || t[i]
            == '-' by {
            assert(t[i] == acc[a + i]);
        }
        assert forall|i: int| 0 <= i < t.len() - 1 implies !(#[trigger] t[i] == '-' && t[i + 1]
            == '-') by {
            assert(t[i] == acc[a + i]);
            assert(t[i + 1] == acc[a + i + 1]);
        }
        assert(t[0] == mid[0]);
        assert(t.last() == mid[mid.len() - trail_len(mid, p) - 1]);
    }
}

/// Whether a text holds an ASCII letter or digit.
pub open spec fn has_ascii_alnum(s: Seq<char>) -> bool {
    exists|i: int| 0 <= i < s.len() && #[trigger] is_ascii_alnum(s[i])
}

proof fn lemma_dash_runs_alnum(s: Seq<char>)
    ensures
        has_ascii_alnum(s) <==> has_ascii_alnum(dash_runs(s).0),
    decreases s.len(),
{
    if s.len() > 0 {
        let d = s.drop_last();
        lemma_dash_runs_alnum(d);
        let (acc, prev) = dash_runs(d);
        let c = s.last();
        let out = dash_runs(s).0;
        assert(!is_ascii_alnum('-'));
        if has_ascii_alnum(s) {
            let i = choose|i: int| 0 <= i < s.len() && #[trigger] is_ascii_alnum(s[i]);
            if i < s.len() - 1 {
                assert(is_ascii_alnum(d[i]));
                let j = choose|j: int| 0 <= j < acc.len() && #[trigger] is_ascii_alnum(acc[j]);
                assert(out[j] == acc[j]);
            } else {
                assert(out[out.len() - 1] == c);
            }
        }
        if has_ascii_alnum(out) {
            let j = choose|j: int| 0 <= j < out.len() && #[trigger] is_ascii_alnum(out[j]);
            if j < acc.len() {
                assert(out[j] == acc[j]);
                let i = choose|i: int| 0 <= i < d.len() && #[trigger] is_ascii_alnum(d[i]);
                assert(s[i] == d[i]);
            } else {
                assert(is_ascii_alnum(s[s.len() - 1]));
            }
        }
    }
}

proof fn lemma_trim_dashes_empty(a: Seq<char>)
    requires
        forall|i: int| 0 <= i < a.len() ==> is_ascii_alnum(#[trigger] a[i]) || a[i] == '-',
    ensures
        trim(a, CharPat::One('-')).len() > 0 <==> has_ascii_alnum(a),
{
    let p = CharPat::One('-');
    lemma_lead_len_bound(a, p);
    let l = lead_len(a, p) as int;
    let mid = a.skip(l);
    lemma_trail_len_bound(mid, p);
    assert(!is_ascii_alnum('-'));
    if has_ascii_alnum(a) {
        let i = choose|i: int| 0 <= i < a.len() && #[trigger] is_ascii_alnum(a[i]);
        assert(l <= i);
        assert(mid[i - l] == a[i]);
        assert(trail_len(mid, p) < mid.len());
    } else {
        if l < a.len() {
            assert(!p.has(a[l]));
            assert(is_ascii_alnum(a[l]));
        }
    }
}

/// The slug of an imported item and the slug of a tag differ only in their
/// fallback: when the lower-cased name holds an ASCII letter or digit both are
/// the same slug, and otherwise they are `post` and `tag`.
pub proof fn post_and_tag_slugs_agree(name: Seq<char>)
    ensures
        has_ascii_alnum(unicode_lowercase_of(name)) ==> slug_or(unicode_lowercase_of(name), "post"@)
            == slug_or(unicode_lowercase_of(name), "tag"@),
        !has_ascii_alnum(unicode_lowercase_of(name)) ==> slug_or(unicode_lowercase_of(name), "post"@)
            == "post"@ && slug_or(unicode_lowercase_of(name), "tag"@) == "tag"@,
{
    let l = unicode_lowercase_of(name);
    lemma_dash_runs(l);
    lemma_dash_runs_alnum(l);
    lemma_trim_dashes_empty(dash_runs(l).0);
}

/// Whether a text has no ASCII capital letter.
pub open spec fn no_ascii_upper(s: Seq<char>) -> bool {
    forall|i: int| 0 <= i < s.len() ==> !('A' <= #[trigger] s[i] <= 'Z')
}

/// A slug in lower case: only `a-z`, `0-9` and single inner dashes.
pub open spec fn is_lower_slug(s: Seq<char>) -> bool {
    is_slug(s) && no_ascii_upper(s)
}

proof fn lemma_dash_runs_no_upper(s: Seq<char>)
    requires
        no_ascii_upper(s),
    ensures
        no_ascii_upper(dash_runs(s).0),
    decreases s.len(),
{
    if s.len() > 0 {
        let d = s.drop_last();
        assert forall|i: int| 0 <= i < d.len() implies !('A' <= #[trigger] d[i] <= 'Z') by {
            assert(d[i] == s[i]);
        }
        lemma_dash_runs_no_upper(d);
        let (acc, prev) = dash_runs(d);
        let c = s.last();
        assert(!('A' <= s[s.len() - 1] <= 'Z'));
        if is_ascii_alnum(c) {
            assert forall|i: int| 0 <= i < acc.push(c).len() implies !('A' <= #[trigger] acc.push(
                c,
            )[i] <= 'Z') by {
                if i < acc.len() {
                    assert(acc.push(c)[i] == acc[i]);
                }
            }
        } else if !prev {
            assert forall|i: int| 0 <= i < acc.push('-').len() implies !('A' <= #[trigger] acc.push(
                '-',
            )[i] <= 'Z') by {
                if i < acc.len() {
                    assert(acc.push('-')[i] == acc[i]);
                }
            }
        }
    }
}

/// A text of letters, digits and dashes that neither starts with a dash nor
/// holds two in a row passes through the slug builder unchanged.
proof fn lemma_dash_runs_fixed(s: Seq<char>)
    requires
        forall|i: int| 0 <= i < s.len() ==> is_ascii_alnum(#[trigger] s[i]) || s[i] == '-',
        s.len() > 0 ==> s[0] != '-',
        forall|i: int| 0 <= i < s.len() - 1 ==> !(#[trigger] s[i] == '-' && s[i + 1] == '-'),
    ensures
        dash_runs(s).0 == s,
        dash_runs(s).1 == (s.len() > 0 && s.last() == '-'),
    decreases s.len(),
{
    if s.len() > 0 {
        let d = s.drop_last();
        assert forall|i: int| 0 <= i < d.len() implies is_ascii_alnum(#[trigger] d[i]) || d[i] == '-' by {
            assert(d[i] == s[i]);
        }
        assert forall|i: int| 0 <= i < d.len() - 1 implies !(#[trigger] d[i] == '-' && d[i + 1] == '-') by {
            assert(d[i] == s[i]);
            assert(d[i + 1] == s[i + 1]);
        }
        if d.len() > 0 {
            assert(d[0] == s[0]);
        }
        lemma_dash_runs_fixed(d);
        let c = s.last();
        assert(!is_ascii_alnum('-'));
        if !is_ascii_alnum(c) {
            assert(c == '-');
            assert(d.len() > 0);
            assert(s[s.len() - 2] == d.last());
            assert(!(s[s.len() - 2] == '-' && s[s.len() - 1] == '-'));
        }
        assert(d.push(c) =~= s);
    }
}

/// A lower-case slug is its own slug, whatever the fallback.
proof fn lemma_slug_or_fixed(s: Seq<char>, fallback: Seq<char>)
    requires
        is_slug(s),
    ensures
        slug_or(s, fallback) == s,
{
    lemma_dash_runs_fixed(s);
    let p = CharPat::One('-');
    assert(lead_len(s, p) == 0);
    assert(trail_len(s.skip(0), p) == 0) by {
        assert(s.skip(0) =~= s);
    }
    assert(trim(s, p) =~= s);
}

fn slug_with_fallback(name: &str, fallback: &str) -> (r: String)
    ensures
        r@ == slug_or(unicode_lowercase_of(name@), fallback@),
        no_ascii_upper(fallback@) ==> no_ascii_upper(r@),
        is_lower_slug(name@) ==> unicode_lowercase_of(name@) == name@,
{
    let lowered = unicode_lowercase(name);
    proof {
        if is_lower_slug(name@) {
            assert forall|i: int| 0 <= i < name@.len() implies (#[trigger] name@[i] as u32) < 128 by {
                assert(is_ascii_alnum(name@[i]) || name@[i] == '-');
            }
            assert(ascii_lower(name@) =~= name@);
        }
        lemma_dash_runs(lowered@);
        lemma_dash_runs_no_upper(lowered@);
        let acc = dash_runs(lowered@).0;
        let p = CharPat::One('-');
        lemma_lead_len_bound(acc, p);
        let a = lead_len(acc, p) as int;
        let mid = acc.skip(a);
        lemma_trail_len_bound(mid, p);
        let t = trim(acc, p);
        assert(t =~= acc.subrange(a, a + mid.len() - trail_len(mid, p)));
        assert forall|i: int| 0 <= i < t.len() implies !('A' <= #[trigger] t[i] <= 'Z') by {
            assert(t[i] == acc[a + i]);
        }
    }
    let chars = str_chars(lowered.as_str());
    let mut slug: Vec<char> = Vec::new();
    let mut previous_dash = false;
    let mut i: usize = 0;
    while i < chars.len()
        invariant
            0 <= i <= chars@.len(),
            (slug@, previous_dash) == dash_runs(chars@.take(i as int)),
        decreases chars@.len() - i,
    {
        let c = chars[i];
        proof {
            assert(chars@.take(i + 1).drop_last() =~= chars@.take(i as int));
        }
        if char_is_ascii_alnum(c) {
            slug.push(c);
            previous_dash = false;
        } else if !previous_dash {
            slug.push('-');
            previous_dash = true;
        }
        i = i + 1;
    }
    proof {
        assert(chars@.take(i as int) =~= chars@);
    }
    let trimmed = trim_chars(slug.as_slice(), &CharPat::One('-'));
    if trimmed.len() == 0 {
        fallback.to_string()
    } else {
        string_from_chars(trimmed.as_slice())
    }
}

/// The slug of a tag's name, as tag pages are addressed by.
pub fn sanitize_tag_slug(tag_name: &str) -> (r: String)
    ensures
        r@ == slug_or(unicode_lowercase_of(tag_name@), "tag"@),
        is_lower_slug(r@),
        is_lower_slug(tag_name@) ==> r@ == tag_name@,
{
    proof {
        reveal_strlit("tag");
        lemma_slug_or(unicode_lowercase_of(tag_name@), "tag"@);
        if is_lower_slug(tag_name@) {
            lemma_slug_or_fixed(tag_name@, "tag"@);
        }
    }
    slug_with_fallback(tag_name, "tag")
}

/// The slug that an imported item without one gets from its title.
pub fn normalize_slug(value: &str) -> (r: String)
    ensures
        r@ == slug_or(unicode_lowercase_of(value@), "post"@),
        is_lower_slug(r@),
        is_lower_slug(value@) ==> r@ == value@,
{
    proof {
        reveal_strlit("post");
        lemma_slug_or(unicode_lowercase_of(value@), "post"@);
        if is_lower_slug(value@) {
            lemma_slug_or_fixed(value@, "post"@);
        }
    }
    slug_with_fallback(value, "post")
}

/// The link of one tag in a rendered page.
pub open spec fn tag_link(tag: Seq<char>) -> Seq<char> {
    "<a href=\"/tags/"@ + slug_or(unicode_lowercase_of(tag), "tag"@) + "/\">"@ + tag + "</a>"@
}

/// The links of a page's tags, separated by commas.
pub open spec fn tag_links(tags: Seq<Seq<char>>) -> Seq<char> {
    join(Seq::new(tags.len(), |i: int| tag_link(tags[i])), ", "@)
}

fn tag_link_chars(tag: &String) -> (v: Vec<char>)
    ensures
        v@ == tag_link(tag@),
{
    let mut v = chars_of("<a href=\"/tags/");
    let slug = sanitize_tag_slug(tag.as_str());
    push_all(&mut v, str_chars(slug.as_str()).as_slice());
    push_all(&mut v, chars_of("/\">").as_slice());
    push_all(&mut v, str_chars(tag.as_str()).as_slice());
    push_all(&mut v, chars_of("</a>").as_slice());
    v
}

/// The HTML links of a list of tags.
pub fn render_tag_links(tags: &[String]) -> (r: String)
    ensures
        r@ == tag_links(tags@.map_values(|t: String| t@)),
{
    let ghost names = tags@.map_values(|t: String| t@);
    let ghost links = Seq::new(names.len(), |i: int| tag_link(names[i]));
    let mut v: Vec<char> = Vec::new();
    let sep = chars_of(", ");
    let mut i: usize = 0;
    while i < tags.len()
        invariant
            0 <= i <= tags@.len(),
            names == tags@.map_values(|t: String| t@),
            links == Seq::new(names.len(), |j: int| tag_link(names[j])),
            sep@ == ", "@,
            v@ == join(links.take(i as int), ", "@),
        decreases tags@.len() - i,
    {
        let link = tag_link_chars(&tags[i]);
        proof {
            assert(links.take(i + 1).drop_last() =~= links.take(i as int));
            assert(links.take(i + 1).last() == link@);
        }
        if i > 0 {
            push_all(&mut v, sep.as_slice());
        } else {
            proof {
                assert(join(links.take(i as int), ", "@) =~= Seq::<char>::empty());
            }
        }
        push_all(&mut v, link.as_slice());
        i = i + 1;
        proof {
            if i == 1 {
                assert(v@ =~= join(links.take(i as int), ", "@));
            }
        }
    }
    proof {
        assert(links.take(i as int) =~= links);
    }
    string_from_chars(v.as_slice())
}

/// XML escaping of text: `&`, `<`, `>`, `"` and `'`, in that order.
pub open spec fn xml_escaped(s: Seq<char>) -> Seq<char> {
    replace(
        replace(
            replace(replace(replace(s, "&"@, "&amp;"@), "<"@, "&lt;"@), ">"@, "&gt;"@),
            "\""@,
            "&quot;"@,
        ),
        "'"@,
        "&apos;"@,
    )
}

fn xml_escaped_chars(s: &[char]) -> (v: Vec<char>)
    ensures
        v@ == xml_escaped(s@),
{
    proof {
        reveal_strlit("&");
        reveal_strlit("<");
        reveal_strlit(">");
        reveal_strlit("\"");
        reveal_strlit("'");
    }
    let a = replace_chars(s, chars_of("&").as_slice(), chars_of("&amp;").as_slice());
    let b = replace_chars(a.as_slice(), chars_of("<").as_slice(), chars_of("&lt;").as_slice());
    let c = replace_chars(b.as_slice(), chars_of(">").as_slice(), chars_of("&gt;").as_slice());
    let d = replace_chars(c.as_slice(), chars_of("\"").as_slice(), chars_of("&quot;").as_slice());
    replace_chars(d.as_slice(), chars_of("'").as_slice(), chars_of("&apos;").as_slice())
}

/// Escapes text for an XML feed.
pub fn escape_xml_text(input: &str) -> (r: String)
    ensures
        r@ == xml_escaped(input@),
{
    let chars = str_chars(input);
    let v = xml_escaped_chars(chars.as_slice());
    string_from_chars(v.as_slice())
}

/// The link of a content item in a feed: its primary route between slashes.
pub open spec fn feed_link(c: ContentItem) -> Seq<char> {
    seq!['/'] + trim(primary_route(c), CharPat::One('/')) + seq!['/']
}

/// The RSS `<item>` of a content item.
pub open spec fn rss_item(c: ContentItem) -> Seq<char> {
    "<item><title>"@ + xml_escaped(c.title@) + "</title><link>"@ + feed_link(c)
        + "</link><guid isPermaLink=\"false\">"@ + c.id@ + "</guid><pubDate>"@ + publish_instant(
        c,
    ).spec_rfc2822() + "</pubDate><description>"@ + xml_escaped(c.page_content@)
        + "</description></item>"@
}

/// The Atom `<entry>` of a content item.
pub open spec fn atom_entry(c: ContentItem) -> Seq<char> {
    "<entry><title>"@ + xml_escaped(c.title@) + "</title><link href=\""@ + feed_link(c)
        + "\"/><id>"@ + c.id@ + "</id><published>"@ + publish_instant(c).spec_rfc2822()
        + "</published><updated>"@ + publish_instant(c).spec_rfc2822() + "</updated><summary>"@
        + xml_escaped(c.page_content@) + "</summary></entry>"@
}

/// What XML escaping makes of one character: an entity for `&`, `<`, `>`,
/// `"` and `'`, the character itself otherwise.
pub open spec fn xml_char_escape(c: char) -> Seq<char> {
    if c == '&' {
        seq!['&', 'a', 'm', 'p', ';']
    } else if c == '<' {
        seq!['&', 'l', 't', ';']
    } else if c == '>' {
        seq!['&', 'g', 't', ';']
    } else if c == '"' {
        seq!['&', 'q', 'u', 'o', 't', ';']
    } else if c == '\'' {
        seq!['&', 'a', 'p', 'o', 's', ';']
    } else {
        seq![c]
    }
}

/// A text with each character replaced by its XML escape.
pub open spec fn xml_escape_each(s: Seq<char>) -> Seq<char>
    decreases s.len(),
{
    if s.len() == 0 {
        Seq::empty()
    } else {
        xml_char_escape(s[0]) + xml_escape_each(s.drop_first())
    }
}

/// The character that the `k`-th replacement of XML escaping rewrites.
spec fn xml_stage_char(k: int) -> char {
    if k == 0 {
        '&'
    } else if k == 1 {
        '<'
    } else if k == 2 {
        '>'
    } else if k == 3 {
        '"'
    } else {
        '\''
    }
}

/// The step of XML escaping that rewrites a character, or 5 for none.
spec fn xml_stage_of(c: char) -> int {
    if c == '&' {
        0
    } else if c == '<' {
        1
    } else if c == '>' {
        2
    } else if c == '"' {
        3
    } else if c == '\'' {
        4
    } else {
        5
    }
}

/// A character after the first `k` replacements of XML escaping.
spec fn xml_stage_token(k: int, c: char) -> Seq<char> {
    if xml_stage_of(c) < k {
        xml_char_escape(c)
    } else {
        seq![c]
    }
}

/// A text after the first `k` replacements of XML escaping.
spec fn xml_stage_text(k: int, s: Seq<char>) -> Seq<char>
    decreases s.len(),
{
    if s.len() == 0 {
        Seq::empty()
    } else {
        xml_stage_token(k, s[0]) + xml_stage_text(k, s.drop_first())
    }
}

proof fn lemma_xml_stage_token(k: int, c: char)
    requires
        0 <= k < 5,
    ensures
        (xml_stage_token(k, c) == seq![xml_stage_char(k)] && xml_stage_token(k + 1, c)
            == xml_char_escape(xml_stage_char(k))) || (xml_stage_token(k + 1, c) == xml_stage_token(
            k,
            c,
        ) && no_match_start(xml_stage_token(k, c), seq![xml_stage_char(k)])),
{
    let p = seq![xml_stage_char(k)];
    let t = xml_stage_token(k, c);
    if xml_stage_of(c) == k {
        assert(c == xml_stage_char(k));
    } else {
        lemma_token_safe(t, p);
    }
}

proof fn lemma_xml_stage_step(k: int, s: Seq<char>)
    requires
        0 <= k < 5,
    ensures
        replace(xml_stage_text(k, s), seq![xml_stage_char(k)], xml_char_escape(xml_stage_char(k)))
            == xml_stage_text(k + 1, s),
    decreases s.len(),
{
    let pat = seq![xml_stage_char(k)];
    let rep = xml_char_escape(xml_stage_char(k));
    if s.len() > 0 {
        let t = xml_stage_token(k, s[0]);
        let y = xml_stage_text(k, s.drop_first());
        lemma_xml_stage_step(k, s.drop_first());
        lemma_xml_stage_token(k, s[0]);
        if t == pat && xml_stage_token(k + 1, s[0]) == rep {
            lemma_replace_takes(y, pat, rep);
        } else {
            lemma_replace_skips(t, y, pat, rep);
        }
    }
}

proof fn lemma_xml_stage_ends(s: Seq<char>)
    ensures
        xml_stage_text(0, s) == s,
        xml_stage_text(5, s) == xml_escape_each(s),
    decreases s.len(),
{
    if s.len() > 0 {
        lemma_xml_stage_ends(s.drop_first());
        assert(s =~= seq![s[0]] + s.drop_first());
    }
}

proof fn lemma_xml_escape_each_no_brackets(s: Seq<char>)
    ensures
        forall|i: int|
            0 <= i < xml_escape_each(s).len() ==> #[trigger] xml_escape_each(s)[i] != '<'
                && xml_escape_each(s)[i] != '>',
    decreases s.len(),
{
    if s.len() > 0 {
        lemma_xml_escape_each_no_brackets(s.drop_first());
        let h = xml_char_escape(s[0]);
        let rest = xml_escape_each(s.drop_first());
        assert forall|i: int| 0 <= i < (h + rest).len() implies #[trigger] (h + rest)[i] != '<'
            && (h + rest)[i] != '>' by {
            if i >= h.len() {
                assert((h + rest)[i] == rest[i - h.len()]);
            }
        }
    }
}

proof fn lemma_xml_escape_each_concat(a: Seq<char>, b: Seq<char>)
    ensures
        xml_escape_each(a + b) == xml_escape_each(a) + xml_escape_each(b),
    decreases a.len(),
{
    if a.len() == 0 {
        assert(a + b =~= b);
    } else {
        lemma_xml_escape_each_concat(a.drop_first(), b);
        assert((a + b).drop_first() =~= a.drop_first() + b);
        assert((a + b)[0] == a[0]);
    }
}

/// XML escaping rewrites each character on its own: `&`, `<`, `>`, `"` and
/// `'` become `&amp;`, `&lt;`, `&gt;`, `&quot;` and `&apos;`, every other
/// character stays, so escaped text never holds a `<` or a `>` and escaping
/// two texts one after the other is escaping them joined.
pub proof fn xml_escaping_is_per_character(s: Seq<char>, t: Seq<char>)
    ensures
        xml_escaped(s) == xml_escape_each(s),
        forall|i: int| 0 <= i < xml_escaped(s).len() ==> #[trigger] xml_escaped(s)[i] != '<'
            && xml_escaped(s)[i] != '>',
        xml_escaped(s + t) == xml_escaped(s) + xml_escaped(t),
{
    lemma_xml_escaped_each(s);
    lemma_xml_escaped_each(t);
    lemma_xml_escaped_each(s + t);
    lemma_xml_escape_each_no_brackets(s);
    lemma_xml_escape_each_concat(s, t);
}

proof fn lemma_xml_escaped_each(s: Seq<char>)
    ensures
        xml_escaped(s) == xml_escape_each(s),
{
    reveal_strlit("&");
    reveal_strlit("<");
    reveal_strlit(">");
    reveal_strlit("\"");
    reveal_strlit("'");
    reveal_strlit("&amp;");
    reveal_strlit("&lt;");
    reveal_strlit("&gt;");
    reveal_strlit("&quot;");
    reveal_strlit("&apos;");
    assert("&"@ =~= seq![xml_stage_char(0)]);
    assert("<"@ =~= seq![xml_stage_char(1)]);
    assert(">"@ =~= seq![xml_stage_char(2)]);
    assert("\""@ =~= seq![xml_stage_char(3)]);
    assert("'"@ =~= seq![xml_stage_char(4)]);
    assert("&amp;"@ =~= xml_char_escape(xml_stage_char(0)));
    assert("&lt;"@ =~= xml_char_escape(xml_stage_char(1)));
    assert("&gt;"@ =~= xml_char_escape(xml_stage_char(2)));
    assert("&quot;"@ =~= xml_char_escape(xml_stage_char(3)));
    assert("&apos;"@ =~= xml_char_escape(xml_stage_char(4)));
    lemma_xml_stage_ends(s);
    lemma_xml_stage_step(0, s);
    lemma_xml_stage_step(1, s);
    lemma_xml_stage_step(2, s);
    lemma_xml_stage_step(3, s);
    lemma_xml_stage_step(4, s);
}

/// The RSS item of a content item opens with its title and closes with its
/// body as the item's description, each escaped character by character, so
/// no `<` or `>` of the title or the body reaches the feed's markup.
pub proof fn rss_item_escapes_title_and_body(c: ContentItem)
    ensures
        ({
            let item = rss_item(c);
            let title = xml_escape_each(c.title@);
            let body = xml_escape_each(c.page_content@);
            let open = "<item><title>"@ + title + "</title>"@;
            let close = "<description>"@ + body + "</description></item>"@;
            &&& item.len() >= open.len() + close.len()
            &&& item.take(open.len() as int) == open
            &&& item.skip(item.len() - close.len()) == close
        }),
{
    lemma_xml_escaped_each(c.title@);
    lemma_xml_escaped_each(c.page_content@);
    let item = rss_item(c);
    let title = xml_escape_each(c.title@);
    let body = xml_escape_each(c.page_content@);
    let open = "<item><title>"@ + title + "</title>"@;
    let close = "<description>"@ + body + "</description></item>"@;
    let mid = "<link>"@ + feed_link(c) + "</link><guid isPermaLink=\"false\">"@ + c.id@
        + "</guid><pubDate>"@ + publish_instant(c).spec_rfc2822() + "</pubDate>"@;
    reveal_strlit("<item><title>");
    reveal_strlit("</title>");
    reveal_strlit("</title><link>");
    reveal_strlit("<link>");
    reveal_strlit("</pubDate><description>");
    reveal_strlit("</pubDate>");
    reveal_strlit("<description>");
    assert("</title><link>"@ =~= "</title>"@ + "<link>"@);
    assert("</pubDate><description>"@ =~= "</pubDate>"@ + "<description>"@);
    assert(item =~= open + mid + close);
    assert(item.take(open.len() as int) =~= open);
    assert(item.skip(item.len() - close.len()) =~= close);
}

/// The Atom entry of a content item opens with its title and closes with its
/// body as the entry's summary, each escaped character by character.
pub proof fn atom_entry_escapes_title_and_body(c: ContentItem)
    ensures
        ({
            let entry = atom_entry(c);
            let title = xml_escape_each(c.title@);
            let body = xml_escape_each(c.page_content@);
            let open = "<entry><title>"@ + title + "</title>"@;
            let close = "<summary>"@ + body + "</summary></entry>"@;
            &&& entry.len() >= open.len() + close.len()
            &&& entry.take(open.len() as int) == open
            &&& entry.skip(entry.len() - close.len()) == close
        }),
{
    lemma_xml_escaped_each(c.title@);
    lemma_xml_escaped_each(c.page_content@);
    let entry = atom_entry(c);
    let title = xml_escape_each(c.title@);
    let body = xml_escape_each(c.page_content@);
    let open = "<entry><title>"@ + title + "</title>"@;
    let close = "<summary>"@ + body + "</summary></entry>"@;
    let d = publish_instant(c).spec_rfc2822();
    let mid = "<link href=\""@ + feed_link(c) + "\"/><id>"@ + c.id@ + "</id><published>"@ + d
        + "</published><updated>"@ + d + "</updated>"@;
    reveal_strlit("<entry><title>");
    reveal_strlit("</title>");
    reveal_strlit("</title><link href=\"");
    reveal_strlit("<link href=\"");
    reveal_strlit("</updated><summary>");
    reveal_strlit("</updated>");
    reveal_strlit("<summary>");
    assert("</title><link href=\""@ =~= "</title>"@ + "<link href=\""@);
    assert("</updated><summary>"@ =~= "</updated>"@ + "<summary>"@);
    assert(entry =~= open + mid + close);
    assert(entry.take(open.len() as int) =~= open);
    assert(entry.skip(entry.len() - close.len()) =~= close);
}

fn feed_link_chars(item: &ContentItem) -> (v: Vec<char>)
    ensures
        v@ == feed_link(*item),
{
    let route = primary_route_chars(item);
    let trimmed = trim_chars(route.as_slice(), &CharPat::One('/'));
    let mut v: Vec<char> = Vec::new();
    v.push('/');
    push_all(&mut v, trimmed.as_slice());
    v.push('/');
    proof {
        assert(v@ =~= feed_link(*item));
    }
    v
}

fn rss_item_chars(item: &ContentItem) -> (v: Vec<char>)
    requires
        rfc2822_ok(publish_instant(*item)),
    ensures
        v@ == rss_item(*item),
{
    let mut v = chars_of("<item><title>");
    push_all(&mut v, xml_escaped_chars(str_chars(item.title.as_str()).as_slice()).as_slice());
    push_all(&mut v, chars_of("</title><link>").as_slice());
    push_all(&mut v, feed_link_chars(item).as_slice());
    push_all(&mut v, chars_of("</link><guid isPermaLink=\"false\">").as_slice());
    push_all(&mut v, str_chars(item.id.as_str()).as_slice());
    push_all(&mut v, chars_of("</guid><pubDate>").as_slice());
    let date = item.content_publish_timestamp();
    push_all(&mut v, str_chars(date.as_str()).as_slice());
    push_all(&mut v, chars_of("</pubDate><description>").as_slice());
    push_all(
        &mut v,
        xml_escaped_chars(str_chars(item.page_content.as_str()).as_slice()).as_slice(),
    );
    push_all(&mut v, chars_of("</description></item>").as_slice());
    v
}

fn atom_entry_chars(item: &ContentItem) -> (v: Vec<char>)
    requires
        rfc2822_ok(publish_instant(*item)),
    ensures
        v@ == atom_entry(*item),
{
    let date = item.content_publish_timestamp();
    let date_chars = str_chars(date.as_str());
    let mut v = chars_of("<entry><title>");
    push_all(&mut v, xml_escaped_chars(str_chars(item.title.as_str()).as_slice()).as_slice());
    push_all(&mut v, chars_of("</title><link href=\"").as_slice());
    push_all(&mut v, feed_link_chars(item).as_slice());
    push_all(&mut v, chars_of("\"/><id>").as_slice());
    push_all(&mut v, str_chars(item.id.as_str()).as_slice());
    push_all(&mut v, chars_of("</id><published>").as_slice());
    push_all(&mut v, date_chars.as_slice());
    push_all(&mut v, chars_of("</published><updated>").as_slice());
    push_all(&mut v, date_chars.as_slice());
    push_all(&mut v, chars_of("</updated><summary>").as_slice());
    push_all(
        &mut v,
        xml_escaped_chars(str_chars(item.page_content.as_str()).as_slice()).as_slice(),
    );
    push_all(&mut v, chars_of("</summary></entry>").as_slice());
    v
}

/// The RSS items of a list of content items.
pub fn render_rss_items_xml(content_items: &[ContentItem]) -> (r: String)
    requires
        forall|i: int| 0 <= i < content_items@.len() ==> rfc2822_ok(publish_instant(#[trigger] content_items@[i])),
    ensures
        r@ == concat(content_items@.map_values(|c: ContentItem| rss_item(c))),
{
    let ghost rows = content_items@.map_values(|c: ContentItem| rss_item(c));
    let mut v: Vec<char> = Vec::new();
    let mut i: usize = 0;
    while i < content_items.len()
        invariant
            0 <= i <= content_items@.len(),
            forall|k: int| 0 <= k < content_items@.len() ==> rfc2822_ok(publish_instant(#[trigger] content_items@[k])),
            rows == content_items@.map_values(|c: ContentItem| rss_item(c)),
            v@ == concat(rows.take(i as int)),
        decreases content_items@.len() - i,
    {
        let row = rss_item_chars(&content_items[i]);
        proof {
            assert(rows.take(i + 1).drop_last() =~= rows.take(i as int));
        }
        push_all(&mut v, row.as_slice());
        i = i + 1;
    }
    proof {
        assert(rows.take(i as int) =~= rows);
    }
    string_from_chars(v.as_slice())
}

/// The Atom entries of a list of content items.
pub fn render_atom_entries_xml(content_items: &[ContentItem]) -> (r: String)
    requires
        forall|i: int| 0 <= i < content_items@.len() ==> rfc2822_ok(publish_instant(#[trigger] content_items@[i])),
    ensures
        r@ == concat(content_items@.map_values(|c: ContentItem| atom_entry(c))),
{
    let ghost rows = content_items@.map_values(|c: ContentItem| atom_entry(c));
    let mut v: Vec<char> = Vec::new();
    let mut i: usize = 0;
    while i < content_items.len()
        invariant
            0 <= i <= content_items@.len(),
            forall|k: int| 0 <= k < content_items@.len() ==> rfc2822_ok(publish_instant(#[trigger] content_items@[k])),
            rows == content_items@.map_values(|c: ContentItem| atom_entry(c)),
            v@ == concat(rows.take(i as int)),
        decreases content_items@.len() - i,
    {
        let row = atom_entry_chars(&content_items[i]);
        proof {
            assert(rows.take(i + 1).drop_last() =~= rows.take(i as int));
        }
        push_all(&mut v, row.as_slice());
        i = i + 1;
    }
    proof {
        assert(rows.take(i as int) =~= rows);
    }
    string_from_chars(v.as_slice())
}

/// The template files that every site template set must provide.
pub fn required_templates() -> (r: Vec<&'static str>)
    ensures
        r@.len() == 6,
        r@[0]@ == "index.html"@,
        r@[1]@ == "post.html"@,
        r@[2]@ == "page.html"@,
        r@[3]@ == "tag.html"@,
        r@[4]@ == "rss.xml"@,
        r@[5]@ == "atom.xml"@,
{
    let mut r: Vec<&'static str> = Vec::new();
    r.push("index.html");
    r.push("post.html");
    r.push("page.html");
    r.push("tag.html");
    r.push("rss.xml");
    r.push("atom.xml");
    r
}

} // verus!
