//! Finding image links whose files are missing from a site, grouped by path,
//! and ranking local files that could stand in for them.
use crate::deps::{
    parse_url, path_components, path_components_of, path_extension, path_extension_of,
    path_file_name, path_file_name_of, regex_captures, regex_captures_of, string_from_chars,
    unicode_lowercase, unicode_lowercase_of, url_parts_of, CaptureGroups,
};
use crate::entities::{ts_le, ContentItem, Timestamp};
use crate::errors::SiteError;
use crate::scanner::{group, MatchView};
use crate::strings::{
    ascii_lower, ascii_lower_chars, chars_eq, chars_of, ends_with, has_suffix, push_all,
    replace, replace_chars, split_once, split_once_chars, str_chars, str_eq, trim, trim_chars,
    trim_start, trim_start_chars, CharPat,
};
use vstd::prelude::*;

verus! {

/// The image extensions that count, lower-cased.
pub open spec fn is_image_ext(e: Seq<char>) -> bool {
    e == "jpg"@ || e == "jpeg"@ || e == "png"@ || e == "gif"@ || e == "webp"@ || e == "svg"@
}

fn image_ext(e: &[char]) -> (b: bool)
    ensures
        b == is_image_ext(e@),
{
    let s = string_from_chars(e);
    str_eq(s.as_str(), "jpg") || str_eq(s.as_str(), "jpeg") || str_eq(s.as_str(), "png")
        || str_eq(s.as_str(), "gif") || str_eq(s.as_str(), "webp") || str_eq(s.as_str(), "svg")
}

/// Whether a path's extension, lower-cased, is an image extension.
pub open spec fn has_image_ext(path: Seq<char>) -> bool {
    match path_extension_of(path) {
        Some(e) => is_image_ext(ascii_lower(e)),
        None => false,
    }
}

/// Whether a path names an image file by its extension.
pub fn string_has_image_extension(path: &str) -> (b: bool)
    ensures
        b == has_image_ext(path@),
{
    match path_extension(path) {
        Some(e) => image_ext(ascii_lower_chars(str_chars(e.as_str()).as_slice()).as_slice()),
        None => false,
    }
}

/// Whether a file path names an image file by its extension.
pub fn path_has_image_extension(path: &str) -> (b: bool)
    ensures
        b == has_image_ext(path@),
{
    string_has_image_extension(path)
}

/// The root-relative path of an image link: the text before `?` and `#`
/// (when a `#` follows the `?`-free part, else the whole link), trimmed, with
/// one leading slash; `None` when that is blank or not an image.
pub open spec fn asset_path_normalized(raw: Seq<char>) -> Option<Seq<char>> {
    let p1 = match split_once(raw, '?') {
        Some((a, _)) => a,
        None => raw,
    };
    let p2 = match split_once(p1, '#') {
        Some((a, _)) => a,
        None => raw,
    };
    let path = trim(p2, CharPat::Ws);
    if path.len() == 0 || !has_image_ext(path) {
        None
    } else {
        Some(seq!['/'] + trim_start(path, CharPat::One('/')))
    }
}

fn normalize_asset_path_chars(raw: &[char]) -> (r: Option<Vec<char>>)
    ensures
        opt_seq(r) == asset_path_normalized(raw@),
{
    let p1 = match split_once_chars(raw, '?') {
        Some((a, _)) => a,
        None => vstd::slice::slice_to_vec(raw),
    };
    let p2 = match split_once_chars(p1.as_slice(), '#') {
        Some((a, _)) => a,
        None => vstd::slice::slice_to_vec(raw),
    };
    let path = trim_chars(p2.as_slice(), &CharPat::Ws);
    if path.len() == 0 {
        return None;
    }
    let s = string_from_chars(path.as_slice());
    if !string_has_image_extension(s.as_str()) {
        return None;
    }
    let mut v = vec!['/'];
    push_all(&mut v, trim_start_chars(path.as_slice(), &CharPat::One('/')).as_slice());
    Some(v)
}

pub open spec fn opt_seq(o: Option<Vec<char>>) -> Option<Seq<char>> {
    match o {
        Some(v) => Some(v@),
        None => None,
    }
}

pub open spec fn opt_text(o: Option<String>) -> Option<Seq<char>> {
    match o {
        Some(v) => Some(v@),
        None => None,
    }
}

/// The root-relative path of an image link, or `None`.
pub fn normalize_asset_path(raw: &str) -> (r: Option<String>)
    ensures
        opt_text(r) == asset_path_normalized(raw@),
{
    match normalize_asset_path_chars(str_chars(raw).as_slice()) {
        Some(v) => Some(string_from_chars(v.as_slice())),
        None => None,
    }
}

/// A domain as configured: trimmed, without leading dots, lower-cased.
pub open spec fn domain_normalized(d: Seq<char>) -> Seq<char> {
    ascii_lower(trim_start(trim(d, CharPat::Ws), CharPat::One('.')))
}

/// Whether a host is one of the (normalized, non-blank) domains or a subdomain of one.
pub open spec fn host_in(domains: Seq<Seq<char>>, host: Seq<char>) -> bool {
    exists|i: int|
        0 <= i < domains.len() && domain_normalized(#[trigger] domains[i]).len() > 0 && (host
            == domain_normalized(domains[i]) || ends_with(
            host,
            seq!['.'] + domain_normalized(domains[i]),
        ))
}

pub open spec fn texts(s: Seq<String>) -> Seq<Seq<char>> {
    s.map_values(|t: String| t@)
}

/// Whether `host` is one of the internal domains or a subdomain of one.
pub fn host_matches(internal_domains: &[String], host: &str) -> (b: bool)
    ensures
        b == host_in(texts(internal_domains@), host@),
{
    let ghost ds = texts(internal_domains@);
    let h = str_chars(host);
    let mut i: usize = 0;
    while i < internal_domains.len()
        invariant
            0 <= i <= internal_domains@.len(),
            ds == texts(internal_domains@),
            h@ == host@,
            forall|j: int|
                0 <= j < i ==> !(domain_normalized(#[trigger] ds[j]).len() > 0 && (host@
                    == domain_normalized(ds[j]) || ends_with(
                    host@,
                    seq!['.'] + domain_normalized(ds[j]),
                ))),
        decreases internal_domains@.len() - i,
    {
        let t = trim_chars(str_chars(internal_domains[i].as_str()).as_slice(), &CharPat::Ws);
        let t2 = trim_start_chars(t.as_slice(), &CharPat::One('.'));
        let d = ascii_lower_chars(t2.as_slice());
        let mut dotted: Vec<char> = vec!['.'];
        push_all(&mut dotted, d.as_slice());
        proof {
            assert(ds[i as int] == internal_domains@[i as int]@);
            assert(d@ == domain_normalized(ds[i as int]));
            assert(dotted@ =~= seq!['.'] + d@);
        }
        if d.len() > 0 && (chars_eq(h.as_slice(), d.as_slice()) || has_suffix(
            h.as_slice(),
            dotted.as_slice(),
        )) {
            return true;
        }
        i = i + 1;
    }
    false
}

/// The root-relative path of an image link: for an absolute URL, its path
/// when its host is internal; for anything else, the link itself.
pub open spec fn asset_link_normalized(raw: Seq<char>, domains: Seq<Seq<char>>) -> Option<Seq<char>> {
    let t = trim(raw, CharPat::Ws);
    if t.len() == 0 {
        None
    } else {
        match url_parts_of(t) {
            Some(u) => match u.1 {
                None => None,
                Some(h) => if host_in(domains, ascii_lower(h)) {
                    asset_path_normalized(u.2)
                } else {
                    None
                },
            },
            None => asset_path_normalized(t),
        }
    }
}

/// The root-relative path of an image link, or `None` when it is external,
/// blank or not an image.
pub fn normalize_asset_link(raw: &str, internal_domains: &[String]) -> (r: Option<String>)
    ensures
        opt_text(r) == asset_link_normalized(raw@, texts(internal_domains@)),
{
    let t = trim_chars(str_chars(raw).as_slice(), &CharPat::Ws);
    if t.len() == 0 {
        return None;
    }
    let ts = string_from_chars(t.as_slice());
    match parse_url(ts.as_str()) {
        Some(u) => {
            proof {
                assert(url_parts_of(t@) == Some(u.parts()));
            }
            match &u.host {
                None => None,
                Some(h) => {
                    let lowered = string_from_chars(
                        ascii_lower_chars(str_chars(h.as_str()).as_slice()).as_slice(),
                    );
                    if host_matches(internal_domains, lowered.as_str()) {
                        normalize_asset_path(u.path.as_str())
                    } else {
                        None
                    }
                },
            }
        },
        None => normalize_asset_path(ts.as_str()),
    }
}

/// An image link found in content: its normalized path, the span of the
/// whole match and the link as written.
#[derive(Debug)]
pub struct ExtractedAssetLink {
    pub normalized_path: String,
    pub start: usize,
    pub end: usize,
    pub original_link: String,
}

/// (normalized path, start, end, original link)
pub type LinkView = (Seq<char>, usize, usize, Seq<char>);

impl View for ExtractedAssetLink {
    type V = LinkView;

    open spec fn view(&self) -> LinkView {
        (self.normalized_path@, self.start, self.end, self.original_link@)
    }
}

pub open spec fn link_views(s: Seq<ExtractedAssetLink>) -> Seq<LinkView> {
    s.map_values(|l: ExtractedAssetLink| l@)
}

/// The link patterns: Markdown links and images, HTML images, HTML anchors.
pub open spec fn link_pattern(kind: int) -> Seq<char> {
    if kind == 0 {
        "(?s)!?\\[([^\\]]*)\\]\\(([^)\\s]+)(?:\\s+\"[^\"]*\")?\\)"@
    } else if kind == 1 {
        "(?is)<img\\b[^>]*\\bsrc\\s*=\\s*(?:\"([^\"]+)\"|'([^']+)')[^>]*>"@
    } else {
        "(?is)<a\\b[^>]*\\bhref\\s*=\\s*(?:\"([^\"]+)\"|'([^']+)')[^>]*>"@
    }
}

fn link_pattern_str(kind: usize) -> (r: &'static str)
    ensures
        r@ == link_pattern(kind as int),
{
    if kind == 0 {
        "(?s)!?\\[([^\\]]*)\\]\\(([^)\\s]+)(?:\\s+\"[^\"]*\")?\\)"
    } else if kind == 1 {
        "(?is)<img\\b[^>]*\\bsrc\\s*=\\s*(?:\"([^\"]+)\"|'([^']+)')[^>]*>"
    } else {
        "(?is)<a\\b[^>]*\\bhref\\s*=\\s*(?:\"([^\"]+)\"|'([^']+)')[^>]*>"
    }
}

/// The link group of a match: group 2 for Markdown, else group 1 or group 2.
pub open spec fn href_group(m: MatchView, kind: int) -> Option<(usize, usize, Seq<char>)> {
    if kind == 0 {
        group(m, 2)
    } else {
        match group(m, 1) {
            Some(g) => Some(g),
            None => group(m, 2),
        }
    }
}

/// The image link that a match holds, if it names an internal image.
pub open spec fn link_of_match(m: MatchView, kind: int, domains: Seq<Seq<char>>) -> Option<LinkView> {
    match href_group(m, kind) {
        None => None,
        Some(href) => match asset_link_normalized(href.2, domains) {
            None => None,
            Some(p) => {
                let start = match group(m, 0) {
                    Some(f) => f.0,
                    None => href.0,
                };
                let end = match group(m, 0) {
                    Some(f) => f.1,
                    None => href.1,
                };
                Some((p, start, end, href.2))
            },
        },
    }
}

/// The image links of the matches of one pattern, in order.
pub open spec fn links_of_matches(all: Seq<MatchView>, kind: int, domains: Seq<Seq<char>>) -> Seq<
    LinkView,
>
    decreases all.len(),
{
    if all.len() == 0 {
        Seq::empty()
    } else {
        let prev = links_of_matches(all.drop_last(), kind, domains);
        match link_of_match(all.last(), kind, domains) {
            Some(l) => prev.push(l),
            None => prev,
        }
    }
}

/// The image links that one pattern finds in a document.
pub open spec fn links_of_kind(source: Seq<char>, kind: int, domains: Seq<Seq<char>>) -> Seq<LinkView> {
    match regex_captures_of(link_pattern(kind), source) {
        Some(all) => links_of_matches(all, kind, domains),
        None => Seq::empty(),
    }
}

/// The position at which a link starting at `start` goes into links ordered by
/// start, after those that start at or before it.
pub open spec fn link_insert_pos(s: Seq<LinkView>, start: usize) -> nat
    decreases s.len(),
{
    if s.len() == 0 {
        0
    } else if s[0].1 > start {
        0
    } else {
        1 + link_insert_pos(s.drop_first(), start)
    }
}

/// Links ordered by start; equal starts keep their order.
pub open spec fn links_by_start(s: Seq<LinkView>) -> Seq<LinkView>
    decreases s.len(),
{
    if s.len() == 0 {
        s
    } else {
        let t = links_by_start(s.drop_last());
        t.insert(link_insert_pos(t, s.last().1) as int, s.last())
    }
}

/// The internal image links of a document: Markdown, then HTML images, then
/// HTML anchors, ordered by where they start.
pub open spec fn asset_links_of(source: Seq<char>, domains: Seq<Seq<char>>) -> Seq<LinkView> {
    links_by_start(
        links_of_kind(source, 0, domains) + links_of_kind(source, 1, domains) + links_of_kind(
            source,
            2,
            domains,
        ),
    )
}

fn group_text_at(m: &CaptureGroups, g: usize) -> (r: Option<(usize, usize, String)>)
    ensures
        match r {
            Some(x) => group(m.deep_view(), g as int) == Some((x.0, x.1, x.2@)),
            None => group(m.deep_view(), g as int) is None,
        },
{
    if g < m.len() {
        match &m[g] {
            Some(x) => Some((x.0, x.1, x.2.clone())),
            None => None,
        }
    } else {
        None
    }
}

fn link_from_match(m: &CaptureGroups, kind: usize, internal_domains: &[String]) -> (r: Option<
    ExtractedAssetLink,
>)
    ensures
        match r {
            Some(l) => link_of_match(m.deep_view(), kind as int, texts(internal_domains@)) == Some(
                l@,
            ),
            None => link_of_match(m.deep_view(), kind as int, texts(internal_domains@)) is None,
        },
{
    let href = if kind == 0 {
        group_text_at(m, 2)
    } else {
        match group_text_at(m, 1) {
            Some(g) => Some(g),
            None => group_text_at(m, 2),
        }
    };
    let href = match href {
        Some(h) => h,
        None => return None,
    };
    let path = match normalize_asset_link(href.2.as_str(), internal_domains) {
        Some(p) => p,
        None => return None,
    };
    let (start, end) = match group_text_at(m, 0) {
        Some(f) => (f.0, f.1),
        None => (href.0, href.1),
    };
    Some(ExtractedAssetLink { normalized_path: path, start, end, original_link: href.2 })
}

/// Appends the image links that the matches of one pattern hold.
pub fn collect_regex_links(
    all: &[CaptureGroups],
    kind: usize,
    internal_domains: &[String],
    links: &mut Vec<ExtractedAssetLink>,
)
    ensures
        link_views(final(links)@) == link_views(old(links)@) + links_of_matches(
            all.deep_view(),
            kind as int,
            texts(internal_domains@),
        ),
{
    let ghost ms = all.deep_view();
    let ghost base = link_views(links@);
    let mut i: usize = 0;
    proof {
        assert(ms.take(0) =~= Seq::<MatchView>::empty());
        assert(base + Seq::<LinkView>::empty() =~= base);
    }
    while i < all.len()
        invariant
            0 <= i <= all@.len(),
            ms == all.deep_view(),
            link_views(links@) == base + links_of_matches(
                ms.take(i as int),
                kind as int,
                texts(internal_domains@),
            ),
        decreases all@.len() - i,
    {
        proof {
            assert(ms.take(i + 1).drop_last() =~= ms.take(i as int));
            assert(ms.take(i + 1).last() == all@[i as int].deep_view());
        }
        match link_from_match(&all[i], kind, internal_domains) {
            Some(l) => {
                let ghost before = links@;
                links.push(l);
                proof {
                    assert(link_views(links@) =~= link_views(before).push(links@.last()@));
                }
            },
            None => {},
        }
        i = i + 1;
    }
    proof {
        assert(ms.take(i as int) =~= ms);
    }
}

fn find_link_pos(sorted: &Vec<ExtractedAssetLink>, start: usize) -> (r: usize)
    ensures
        r == link_insert_pos(link_views(sorted@), start),
        r <= sorted@.len(),
{
    let ghost v = link_views(sorted@);
    let mut j: usize = 0;
    proof {
        assert(v.skip(0) =~= v);
    }
    while j < sorted.len() && sorted[j].start <= start
        invariant
            0 <= j <= sorted@.len(),
            v == link_views(sorted@),
            link_insert_pos(v, start) == j + link_insert_pos(v.skip(j as int), start),
        decreases sorted@.len() - j,
    {
        proof {
            assert(v.skip(j as int)[0] == v[j as int]);
            assert(v.skip(j as int).drop_first() =~= v.skip(j + 1));
        }
        j = j + 1;
    }
    j
}

fn sort_links_by_start(links: Vec<ExtractedAssetLink>) -> (r: Vec<ExtractedAssetLink>)
    ensures
        link_views(r@) == links_by_start(link_views(links@)),
{
    let ghost orig = link_views(links@);
    let mut rest = links;
    let n: usize = rest.len();
    let mut sorted: Vec<ExtractedAssetLink> = Vec::new();
    let mut k: usize = 0;
    proof {
        assert(orig.take(0) =~= Seq::<LinkView>::empty());
        assert(orig.skip(0) =~= orig);
    }
    while rest.len() > 0
        invariant
            k + rest@.len() == orig.len(),
            orig.len() == n,
            link_views(sorted@) == links_by_start(orig.take(k as int)),
            link_views(rest@) == orig.skip(k as int),
        decreases rest@.len(),
    {
        let ghost before = sorted@;
        let ghost old_rest = rest@;
        proof {
            assert(link_views(old_rest)[0] == orig.skip(k as int)[0]);
        }
        let x = rest.remove(0);
        proof {
            assert(x == old_rest[0]);
            assert(rest@ =~= old_rest.drop_first());
            assert forall|j: int| 0 <= j < rest@.len() implies #[trigger] link_views(rest@)[j]
                == orig.skip(k + 1)[j] by {
                assert(link_views(old_rest)[j + 1] == orig.skip(k as int)[j + 1]);
            }
            assert(orig.take(k + 1).drop_last() =~= orig.take(k as int));
        }
        let p = find_link_pos(&sorted, x.start);
        sorted.insert(p, x);
        proof {
            assert(link_views(sorted@) =~= link_views(before).insert(p as int, x@));
        }
        k = k + 1;
    }
    proof {
        assert(orig.take(k as int) =~= orig);
    }
    sorted
}

/// The internal image links of a document, ordered by where they start.
pub fn extract_asset_links(source: &str, internal_domains: &[String]) -> (r: Vec<ExtractedAssetLink>)
    ensures
        link_views(r@) == asset_links_of(source@, texts(internal_domains@)),
{
    let mut links: Vec<ExtractedAssetLink> = Vec::new();
    let ghost ds = texts(internal_domains@);
    let mut kind: usize = 0;
    proof {
        assert(link_views(links@) =~= Seq::<LinkView>::empty());
    }
    while kind < 3
        invariant
            kind <= 3,
            ds == texts(internal_domains@),
            link_views(links@) == (if kind == 0 {
                Seq::<LinkView>::empty()
            } else if kind == 1 {
                links_of_kind(source@, 0, ds)
            } else if kind == 2 {
                links_of_kind(source@, 0, ds) + links_of_kind(source@, 1, ds)
            } else {
                links_of_kind(source@, 0, ds) + links_of_kind(source@, 1, ds) + links_of_kind(
                    source@,
                    2,
                    ds,
                )
            }),
        decreases 3 - kind,
    {
        let ghost before = link_views(links@);
        match regex_captures(link_pattern_str(kind), source) {
            Some(all) => collect_regex_links(all.as_slice(), kind, internal_domains, &mut links),
            None => {
                proof {
                    assert(before + Seq::<LinkView>::empty() =~= before);
                }
            },
        }
        proof {
            assert(link_views(links@) == before + links_of_kind(source@, kind as int, ds));
            if kind == 0 {
                assert(Seq::<LinkView>::empty() + links_of_kind(source@, 0, ds) =~= links_of_kind(
                    source@,
                    0,
                    ds,
                ));
            }
        }
        kind = kind + 1;
    }
    sort_links_by_start(links)
}


/// One use of a missing image in content.
#[derive(Debug)]
pub struct MassAssetOccurrence {
    pub content_id: String,
    pub title: String,
    pub start: usize,
    pub end: usize,
    pub original_link: String,
}

/// A content item that uses a missing image, and how often.
#[derive(Debug)]
pub struct MassAssetAffectedContent {
    pub content_id: String,
    pub title: String,
    pub occurrence_count: usize,
}

/// The uses of one missing image path.
#[derive(Debug)]
pub struct MissingAssetGroup {
    pub normalized_path: String,
    pub occurrence_count: usize,
    pub affected_content: Vec<MassAssetAffectedContent>,
    pub occurrences: Vec<MassAssetOccurrence>,
}

/// (content id, title, start, end, original link)
pub type OccView = (Seq<char>, Seq<char>, usize, usize, Seq<char>);

/// (content id, title, occurrence count)
pub type AffView = (Seq<char>, Seq<char>, usize);

/// A group of uses of one missing image path.
#[verifier::ext_equal]
pub struct GroupView {
    pub path: Seq<char>,
    pub count: usize,
    pub affected: Seq<AffView>,
    pub occurrences: Seq<OccView>,
}

impl View for MassAssetOccurrence {
    type V = OccView;

    open spec fn view(&self) -> OccView {
        (self.content_id@, self.title@, self.start, self.end, self.original_link@)
    }
}

impl View for MassAssetAffectedContent {
    type V = AffView;

    open spec fn view(&self) -> AffView {
        (self.content_id@, self.title@, self.occurrence_count)
    }
}

impl View for MissingAssetGroup {
    type V = GroupView;

    open spec fn view(&self) -> GroupView {
        GroupView {
            path: self.normalized_path@,
            count: self.occurrence_count,
            affected: self.affected_content@.map_values(|a: MassAssetAffectedContent| a@),
            occurrences: self.occurrences@.map_values(|o: MassAssetOccurrence| o@),
        }
    }
}

pub open spec fn group_views(s: Seq<MissingAssetGroup>) -> Seq<GroupView> {
    s.map_values(|g: MissingAssetGroup| g@)
}

/// One more, saturating at `usize::MAX`.
pub open spec fn sat_inc(n: usize) -> usize {
    if n < usize::MAX {
        (n + 1) as usize
    } else {
        n
    }
}

/// The index of the first row for a content id, or -1.
pub open spec fn row_index(rows: Seq<AffView>, id: Seq<char>) -> int
    decreases rows.len(),
{
    if rows.len() == 0 {
        -1
    } else if rows[0].0 == id {
        0
    } else {
        let k = row_index(rows.drop_first(), id);
        if k < 0 {
            -1
        } else {
            k + 1
        }
    }
}

/// The affected-content rows after one more use by a content item.
pub open spec fn bump_rows(rows: Seq<AffView>, id: Seq<char>, title: Seq<char>) -> Seq<AffView> {
    let k = row_index(rows, id);
    if k >= 0 {
        rows.update(k, (rows[k].0, rows[k].1, sat_inc(rows[k].2)))
    } else {
        rows.push((id, title, 1))
    }
}

/// A group after one more use of its path by a content item.
pub open spec fn add_occurrence(g: GroupView, c: ContentItem, l: LinkView) -> GroupView {
    GroupView {
        path: g.path,
        count: sat_inc(g.count),
        affected: bump_rows(g.affected, c.id@, c.title@),
        occurrences: g.occurrences.push((c.id@, c.title@, l.1, l.2, l.3)),
    }
}

/// The index of the group of a path, or -1.
pub open spec fn group_index(gs: Seq<GroupView>, path: Seq<char>) -> int
    decreases gs.len(),
{
    if gs.len() == 0 {
        -1
    } else if gs[0].path == path {
        0
    } else {
        let k = group_index(gs.drop_first(), path);
        if k < 0 {
            -1
        } else {
            k + 1
        }
    }
}

/// The groups after one link of a content item: added to its path's group, or
/// to a new group when there is room for one, else dropped.
pub open spec fn group_step(gs: Seq<GroupView>, c: ContentItem, l: LinkView, limit: usize) -> Seq<
    GroupView,
> {
    let k = group_index(gs, l.0);
    if k >= 0 {
        gs.update(k, add_occurrence(gs[k], c, l))
    } else if gs.len() >= limit {
        gs
    } else {
        gs.push(
            add_occurrence(
                GroupView {
                    path: l.0,
                    count: 0,
                    affected: Seq::empty(),
                    occurrences: Seq::empty(),
                },
                c,
                l,
            ),
        )
    }
}

/// The groups after the links of one content item, in order.
pub open spec fn group_links(gs: Seq<GroupView>, c: ContentItem, links: Seq<LinkView>, limit: usize) -> Seq<
    GroupView,
>
    decreases links.len(),
{
    if links.len() == 0 {
        gs
    } else {
        group_step(group_links(gs, c, links.drop_last(), limit), c, links.last(), limit)
    }
}

/// The groups after the image links of content items, in order.
pub open spec fn group_contents(contents: Seq<ContentItem>, domains: Seq<Seq<char>>, limit: usize) -> Seq<
    GroupView,
>
    decreases contents.len(),
{
    if contents.len() == 0 {
        Seq::empty()
    } else {
        let c = contents.last();
        group_links(
            group_contents(contents.drop_last(), domains, limit),
            c,
            asset_links_of(c.page_content@, domains),
            limit,
        )
    }
}

pub open spec fn ts_lt(a: Timestamp, b: Timestamp) -> bool {
    !ts_le(b, a)
}

/// Lexicographic order of character sequences (the order of their UTF-8 bytes).
pub open spec fn seq_lt(a: Seq<char>, b: Seq<char>) -> bool
    decreases a.len(),
{
    if a.len() == 0 {
        b.len() > 0
    } else if b.len() == 0 {
        false
    } else if (a[0] as u32) < (b[0] as u32) {
        true
    } else if (a[0] as u32) > (b[0] as u32) {
        false
    } else {
        seq_lt(a.drop_first(), b.drop_first())
    }
}

pub(crate) proof fn lemma_seq_lt_irreflexive(a: Seq<char>)
    ensures
        !seq_lt(a, a),
    decreases a.len(),
{
    if a.len() > 0 {
        lemma_seq_lt_irreflexive(a.drop_first());
    }
}

pub(crate) proof fn lemma_seq_lt_trans(a: Seq<char>, b: Seq<char>, c: Seq<char>)
    requires
        seq_lt(a, b),
        seq_lt(b, c),
    ensures
        seq_lt(a, c),
    decreases a.len(),
{
    if a.len() > 0 && b.len() > 0 && c.len() > 0 && (a[0] as u32) == (b[0] as u32) && (b[0] as u32)
        == (c[0] as u32) {
        lemma_seq_lt_trans(a.drop_first(), b.drop_first(), c.drop_first());
    }
}

pub(crate) proof fn lemma_seq_lt_total(a: Seq<char>, b: Seq<char>)
    ensures
        seq_lt(a, b) || seq_lt(b, a) || a == b,
    decreases a.len(),
{
    if a.len() > 0 && b.len() > 0 && (a[0] as u32) == (b[0] as u32) {
        lemma_seq_lt_total(a.drop_first(), b.drop_first());
        vstd::utf8::char_u32_cast(a[0], a[0] as u32);
        vstd::utf8::char_u32_cast(b[0], b[0] as u32);
        assert(a[0] == b[0]);
        if a.drop_first() == b.drop_first() {
            assert(a =~= seq![a[0]] + a.drop_first());
            assert(b =~= seq![b[0]] + b.drop_first());
        }
    } else if a.len() == 0 && b.len() == 0 {
        assert(a =~= b);
    }
}

/// The instant a content item was last changed: its update, else its creation.
pub open spec fn changed_at(c: ContentItem) -> Timestamp {
    match c.last_updated {
        Some(t) => t,
        None => c.created_at,
    }
}

/// Whether content `a` comes before `b`: more recently changed first, then
/// more recently created, then by lower-cased title.
pub open spec fn content_before(a: ContentItem, b: ContentItem) -> bool {
    if ts_lt(changed_at(b), changed_at(a)) {
        true
    } else if ts_lt(changed_at(a), changed_at(b)) {
        false
    } else if ts_lt(b.created_at, a.created_at) {
        true
    } else if ts_lt(a.created_at, b.created_at) {
        false
    } else {
        seq_lt(unicode_lowercase_of(a.title@), unicode_lowercase_of(b.title@))
    }
}

/// The position at which a content item goes into ordered content: before the
/// first item it comes before.
pub open spec fn content_insert_pos(s: Seq<ContentItem>, x: ContentItem) -> nat
    decreases s.len(),
{
    if s.len() == 0 {
        0
    } else if content_before(x, s[0]) {
        0
    } else {
        1 + content_insert_pos(s.drop_first(), x)
    }
}

/// Content in order; items that neither comes before keep their order.
pub open spec fn contents_ordered(s: Seq<ContentItem>) -> Seq<ContentItem>
    decreases s.len(),
{
    if s.len() == 0 {
        s
    } else {
        let t = contents_ordered(s.drop_last());
        t.insert(content_insert_pos(t, s.last()) as int, s.last())
    }
}

/// The groups of missing images of content, newest content first.
pub open spec fn missing_groups(contents: Seq<ContentItem>, domains: Seq<Seq<char>>, limit: usize) -> Seq<
    GroupView,
> {
    group_contents(contents_ordered(contents), domains, limit)
}

/// Whether groups have distinct paths, are at most `limit`, and count their uses.
pub open spec fn groups_wf(gs: Seq<GroupView>, limit: usize) -> bool {
    &&& gs.len() <= limit
    &&& forall|i: int, j: int| 0 <= i < j < gs.len() ==> #[trigger] gs[i].path != #[trigger] gs[j].path
    &&& forall|i: int|
        0 <= i < gs.len() ==> (#[trigger] gs[i]).count == (if gs[i].occurrences.len()
            <= usize::MAX {
            gs[i].occurrences.len()
        } else {
            usize::MAX as nat
        })
}

proof fn lemma_group_index(gs: Seq<GroupView>, path: Seq<char>)
    ensures
        -1 <= group_index(gs, path) < gs.len(),
        group_index(gs, path) >= 0 ==> gs[group_index(gs, path)].path == path,
        group_index(gs, path) < 0 ==> forall|i: int| 0 <= i < gs.len() ==> #[trigger] gs[i].path
            != path,
    decreases gs.len(),
{
    if gs.len() > 0 && gs[0].path != path {
        lemma_group_index(gs.drop_first(), path);
        assert forall|i: int| 0 <= i < gs.len() && group_index(gs, path) < 0 implies #[trigger] gs[i].path
            != path by {
            if i > 0 {
                assert(gs[i] == gs.drop_first()[i - 1]);
            }
        }
    }
}

proof fn lemma_group_step_wf(gs: Seq<GroupView>, c: ContentItem, l: LinkView, limit: usize)
    requires
        groups_wf(gs, limit),
    ensures
        groups_wf(group_step(gs, c, l, limit), limit),
{
    lemma_group_index(gs, l.0);
    let r = group_step(gs, c, l, limit);
    let k = group_index(gs, l.0);
    if k >= 0 {
        assert forall|i: int, j: int| 0 <= i < j < r.len() implies #[trigger] r[i].path
            != #[trigger] r[j].path by {
            assert(r[i].path == gs[i].path);
            assert(r[j].path == gs[j].path);
        }
        assert forall|i: int| 0 <= i < r.len() implies (#[trigger] r[i]).count == (if r[i].occurrences.len()
            <= usize::MAX {
            r[i].occurrences.len()
        } else {
            usize::MAX as nat
        }) by {
            if i != k {
                assert(r[i] == gs[i]);
            }
        }
    } else if gs.len() < limit {
        assert forall|i: int, j: int| 0 <= i < j < r.len() implies #[trigger] r[i].path
            != #[trigger] r[j].path by {
            if j == gs.len() {
                assert(r[i] == gs[i]);
            } else {
                assert(r[i] == gs[i]);
                assert(r[j] == gs[j]);
            }
        }
        assert forall|i: int| 0 <= i < r.len() implies (#[trigger] r[i]).count == (if r[i].occurrences.len()
            <= usize::MAX {
            r[i].occurrences.len()
        } else {
            usize::MAX as nat
        }) by {
            if i < gs.len() {
                assert(r[i] == gs[i]);
            }
        }
    }
}

proof fn lemma_group_links_wf(gs: Seq<GroupView>, c: ContentItem, links: Seq<LinkView>, limit: usize)
    requires
        groups_wf(gs, limit),
    ensures
        groups_wf(group_links(gs, c, links, limit), limit),
    decreases links.len(),
{
    if links.len() > 0 {
        lemma_group_links_wf(gs, c, links.drop_last(), limit);
        lemma_group_step_wf(group_links(gs, c, links.drop_last(), limit), c, links.last(), limit);
    }
}

/// The groups of missing images hold at most `limit` groups, one per path,
/// each counting its uses (saturating at `usize::MAX`).
pub proof fn missing_groups_well_formed(contents: Seq<ContentItem>, domains: Seq<Seq<char>>, limit: usize)
    ensures
        groups_wf(missing_groups(contents, domains, limit), limit),
{
    lemma_group_contents_wf(contents_ordered(contents), domains, limit);
}

proof fn lemma_group_contents_wf(contents: Seq<ContentItem>, domains: Seq<Seq<char>>, limit: usize)
    ensures
        groups_wf(group_contents(contents, domains, limit), limit),
    decreases contents.len(),
{
    if contents.len() > 0 {
        lemma_group_contents_wf(contents.drop_last(), domains, limit);
        let c = contents.last();
        lemma_group_links_wf(
            group_contents(contents.drop_last(), domains, limit),
            c,
            asset_links_of(c.page_content@, domains),
            limit,
        );
    }
}

pub(crate) fn chars_less(a: &[char], b: &[char]) -> (r: bool)
    ensures
        r == seq_lt(a@, b@),
{
    let mut i: usize = 0;
    proof {
        assert(a@.skip(0) =~= a@);
        assert(b@.skip(0) =~= b@);
    }
    while i < a.len() && i < b.len() && (a[i] as u32) == (b[i] as u32)
        invariant
            0 <= i <= a@.len(),
            i <= b@.len(),
            seq_lt(a@, b@) == seq_lt(a@.skip(i as int), b@.skip(i as int)),
        decreases a@.len() - i,
    {
        proof {
            assert(a@.skip(i as int)[0] == a@[i as int]);
            assert(b@.skip(i as int)[0] == b@[i as int]);
            assert(a@.skip(i as int).drop_first() =~= a@.skip(i + 1));
            assert(b@.skip(i as int).drop_first() =~= b@.skip(i + 1));
        }
        i = i + 1;
    }
    if i == a.len() {
        return i < b.len();
    }
    if i == b.len() {
        return false;
    }
    proof {
        assert(a@.skip(i as int)[0] == a@[i as int]);
        assert(b@.skip(i as int)[0] == b@[i as int]);
    }
    (a[i] as u32) < (b[i] as u32)
}

fn changed_at_of(c: &ContentItem) -> (r: &Timestamp)
    ensures
        *r == changed_at(*c),
{
    match &c.last_updated {
        Some(t) => t,
        None => &c.created_at,
    }
}

fn comes_before(a: &ContentItem, b: &ContentItem) -> (r: bool)
    ensures
        r == content_before(*a, *b),
{
    let ca = changed_at_of(a);
    let cb = changed_at_of(b);
    if !ca.le(cb) {
        return true;
    }
    if !cb.le(ca) {
        return false;
    }
    if !a.created_at.le(&b.created_at) {
        return true;
    }
    if !b.created_at.le(&a.created_at) {
        return false;
    }
    let la = unicode_lowercase(a.title.as_str());
    let lb = unicode_lowercase(b.title.as_str());
    chars_less(str_chars(la.as_str()).as_slice(), str_chars(lb.as_str()).as_slice())
}

fn content_pos(sorted: &Vec<ContentItem>, x: &ContentItem) -> (r: usize)
    ensures
        r == content_insert_pos(sorted@, *x),
        r <= sorted@.len(),
{
    let mut j: usize = 0;
    proof {
        assert(sorted@.skip(0) =~= sorted@);
    }
    while j < sorted.len() && !comes_before(x, &sorted[j])
        invariant
            0 <= j <= sorted@.len(),
            content_insert_pos(sorted@, *x) == j + content_insert_pos(sorted@.skip(j as int), *x),
        decreases sorted@.len() - j,
    {
        proof {
            assert(sorted@.skip(j as int)[0] == sorted@[j as int]);
            assert(sorted@.skip(j as int).drop_first() =~= sorted@.skip(j + 1));
        }
        j = j + 1;
    }
    proof {
        if j < sorted@.len() {
            assert(sorted@.skip(j as int)[0] == sorted@[j as int]);
        }
    }
    j
}

fn order_contents(contents: Vec<ContentItem>) -> (r: Vec<ContentItem>)
    ensures
        r@ == contents_ordered(contents@),
{
    let ghost orig = contents@;
    let mut rest = contents;
    let n: usize = rest.len();
    let mut sorted: Vec<ContentItem> = Vec::new();
    let mut k: usize = 0;
    proof {
        assert(orig.take(0) =~= Seq::<ContentItem>::empty());
        assert(orig.skip(0) =~= orig);
    }
    while rest.len() > 0
        invariant
            k + rest@.len() == orig.len(),
            orig.len() == n,
            sorted@ == contents_ordered(orig.take(k as int)),
            rest@ == orig.skip(k as int),
        decreases rest@.len(),
    {
        let ghost old_rest = rest@;
        let x = rest.remove(0);
        proof {
            assert(x == orig[k as int]);
            assert(rest@ =~= orig.skip(k + 1));
            assert(orig.take(k + 1).drop_last() =~= orig.take(k as int));
        }
        let p = content_pos(&sorted, &x);
        sorted.insert(p, x);
        k = k + 1;
    }
    proof {
        assert(orig.take(k as int) =~= orig);
    }
    sorted
}

fn find_group(groups: &Vec<MissingAssetGroup>, path: &str) -> (r: Option<usize>)
    ensures
        match r {
            Some(k) => k < groups@.len() && group_index(group_views(groups@), path@) == k,
            None => group_index(group_views(groups@), path@) < 0,
        },
{
    let ghost gv = group_views(groups@);
    let mut j: usize = 0;
    proof {
        assert(gv.skip(0) =~= gv);
    }
    while j < groups.len()
        invariant
            0 <= j <= groups@.len(),
            gv == group_views(groups@),
            group_index(gv, path@) == (if group_index(gv.skip(j as int), path@) < 0 {
                -1
            } else {
                j + group_index(gv.skip(j as int), path@)
            }),
        decreases groups@.len() - j,
    {
        proof {
            assert(gv.skip(j as int)[0] == gv[j as int]);
            assert(gv.skip(j as int).drop_first() =~= gv.skip(j + 1));
        }
        if str_eq(groups[j].normalized_path.as_str(), path) {
            return Some(j);
        }
        j = j + 1;
    }
    None
}

fn find_row(rows: &Vec<MassAssetAffectedContent>, id: &str) -> (r: Option<usize>)
    ensures
        match r {
            Some(k) => k < rows@.len() && row_index(
                rows@.map_values(|a: MassAssetAffectedContent| a@),
                id@,
            ) == k,
            None => row_index(rows@.map_values(|a: MassAssetAffectedContent| a@), id@) < 0,
        },
{
    let ghost rv = rows@.map_values(|a: MassAssetAffectedContent| a@);
    let mut j: usize = 0;
    proof {
        assert(rv.skip(0) =~= rv);
    }
    while j < rows.len()
        invariant
            0 <= j <= rows@.len(),
            rv == rows@.map_values(|a: MassAssetAffectedContent| a@),
            row_index(rv, id@) == (if row_index(rv.skip(j as int), id@) < 0 {
                -1
            } else {
                j + row_index(rv.skip(j as int), id@)
            }),
        decreases rows@.len() - j,
    {
        proof {
            assert(rv.skip(j as int)[0] == rv[j as int]);
            assert(rv.skip(j as int).drop_first() =~= rv.skip(j + 1));
        }
        if str_eq(rows[j].content_id.as_str(), id) {
            return Some(j);
        }
        j = j + 1;
    }
    None
}

fn sat_inc_exec(n: usize) -> (r: usize)
    ensures
        r == sat_inc(n),
{
    if n < usize::MAX {
        n + 1
    } else {
        n
    }
}

fn add_occurrence_exec(g: &mut MissingAssetGroup, c: &ContentItem, l: ExtractedAssetLink)
    ensures
        final(g)@ == add_occurrence(old(g)@, *c, l@),
{
    let ghost before = *g;
    g.occurrence_count = sat_inc_exec(g.occurrence_count);
    g.occurrences.push(
        MassAssetOccurrence {
            content_id: c.id.clone(),
            title: c.title.clone(),
            start: l.start,
            end: l.end,
            original_link: l.original_link,
        },
    );
    let ghost rows0 = g.affected_content@;
    match find_row(&g.affected_content, c.id.as_str()) {
        Some(k) => {
            let row = g.affected_content.remove(k);
            let bumped = MassAssetAffectedContent {
                content_id: row.content_id,
                title: row.title,
                occurrence_count: sat_inc_exec(row.occurrence_count),
            };
            g.affected_content.insert(k, bumped);
            proof {
                assert(g.affected_content@ =~= rows0.update(k as int, g.affected_content@[k as int]));
                assert(g.affected_content@.map_values(|a: MassAssetAffectedContent| a@)
                    =~= bump_rows(
                    rows0.map_values(|a: MassAssetAffectedContent| a@),
                    c.id@,
                    c.title@,
                ));
            }
        },
        None => {
            g.affected_content.push(
                MassAssetAffectedContent {
                    content_id: c.id.clone(),
                    title: c.title.clone(),
                    occurrence_count: 1,
                },
            );
            proof {
                assert(g.affected_content@.map_values(|a: MassAssetAffectedContent| a@)
                    =~= bump_rows(
                    rows0.map_values(|a: MassAssetAffectedContent| a@),
                    c.id@,
                    c.title@,
                ));
            }
        },
    }
    proof {
        assert(g.occurrences@.map_values(|o: MassAssetOccurrence| o@) =~= before.occurrences@.map_values(
            |o: MassAssetOccurrence| o@,
        ).push((c.id@, c.title@, l@.1, l@.2, l@.3)));
        assert(g@ =~= add_occurrence(before@, *c, l@));
    }
}

/// The missing images used in content, grouped by normalized path: content is
/// taken newest first (by last change, then creation, then lower-cased
/// title), each group lists its uses and the content using it, and at most
/// `limit` groups are made, in the order their paths are first met.
pub fn find_missing_asset_groups(
    content_items: Vec<ContentItem>,
    internal_domains: &[String],
    limit: usize,
) -> (r: Vec<MissingAssetGroup>)
    ensures
        group_views(r@) == missing_groups(content_items@, texts(internal_domains@), limit),
        groups_wf(group_views(r@), limit),
{
    let ghost ds = texts(internal_domains@);
    let ordered = order_contents(content_items);
    let mut groups: Vec<MissingAssetGroup> = Vec::new();
    let mut ci: usize = 0;
    proof {
        assert(group_views(groups@) =~= Seq::<GroupView>::empty());
        assert(ordered@.take(0) =~= Seq::<ContentItem>::empty());
    }
    while ci < ordered.len()
        invariant
            0 <= ci <= ordered@.len(),
            ds == texts(internal_domains@),
            group_views(groups@) == group_contents(ordered@.take(ci as int), ds, limit),
        decreases ordered@.len() - ci,
    {
        let c = &ordered[ci];
        let links = extract_asset_links(c.page_content.as_str(), internal_domains);
        let ghost lv = link_views(links@);
        let ghost start = group_views(groups@);
        proof {
            assert(ordered@.take(ci + 1).drop_last() =~= ordered@.take(ci as int));
            assert(ordered@.take(ci + 1).last() == *c);
            assert(lv.take(0) =~= Seq::<LinkView>::empty());
        }
        let mut rest = links;
        let nl: usize = rest.len();
        let mut li: usize = 0;
        proof {
            assert(link_views(rest@) =~= lv.skip(0));
        }
        while rest.len() > 0
            invariant
                li + rest@.len() == lv.len(),
                lv.len() == nl,
                link_views(rest@) == lv.skip(li as int),
                group_views(groups@) == group_links(start, *c, lv.take(li as int), limit),
            decreases rest@.len(),
        {
            let ghost old_rest = rest@;
            proof {
                assert(link_views(old_rest)[0] == lv.skip(li as int)[0]);
            }
            let l = rest.remove(0);
            proof {
                assert(l == old_rest[0]);
                assert(l@ == lv[li as int]);
                assert(rest@ =~= old_rest.drop_first());
                assert forall|j: int| 0 <= j < rest@.len() implies #[trigger] link_views(rest@)[j]
                    == lv.skip(li + 1)[j] by {
                    assert(link_views(old_rest)[j + 1] == lv.skip(li as int)[j + 1]);
                }
                assert(lv.take(li + 1).drop_last() =~= lv.take(li as int));
            }
            let ghost gs0 = group_views(groups@);
            let ghost lview = l@;
            match find_group(&groups, l.normalized_path.as_str()) {
                Some(k) => {
                    let ghost groups0 = groups@;
                    let mut g = groups.remove(k);
                    add_occurrence_exec(&mut g, c, l);
                    groups.insert(k, g);
                    proof {
                        assert(groups@ =~= groups0.update(k as int, groups@[k as int]));
                        assert(group_views(groups@) =~= gs0.update(
                            k as int,
                            add_occurrence(gs0[k as int], *c, lview),
                        ));
                    }
                },
                None => {
                    if groups.len() < limit {
                        let mut g = MissingAssetGroup {
                            normalized_path: l.normalized_path.clone(),
                            occurrence_count: 0,
                            affected_content: Vec::new(),
                            occurrences: Vec::new(),
                        };
                        proof {
                            assert(g@ =~= GroupView {
                                path: lview.0,
                                count: 0,
                                affected: Seq::empty(),
                                occurrences: Seq::empty(),
                            });
                        }
                        add_occurrence_exec(&mut g, c, l);
                        let ghost groups0 = groups@;
                        groups.push(g);
                        proof {
                            assert(group_views(groups@) =~= gs0.push(group_views(groups@).last()));
                        }
                    }
                },
            }
            li = li + 1;
        }
        proof {
            assert(lv.take(li as int) =~= lv);
        }
        ci = ci + 1;
    }
    proof {
        assert(ordered@.take(ci as int) =~= ordered@);
        missing_groups_well_formed(content_items@, ds, limit);
    }
    groups
}


/// How well a local file matches a missing path: by path suffix, or only by
/// file name.
#[derive(Clone, Copy, Debug, PartialEq, Eq, Structural)]
pub enum LocalAssetCandidateRank {
    PathSuffix,
    Filename,
}

/// A local file that could stand in for a missing image.
#[derive(Debug)]
pub struct LocalAssetCandidate {
    pub absolute_path: String,
    pub relative_path: String,
    pub rank: LocalAssetCandidateRank,
    pub byte_length: u64,
}

/// What a missing path is matched by: the path, its lower-cased relative
/// form, that form after a slash, and its lower-cased file name.
#[derive(Debug)]
pub struct LocalAssetCandidateQuery {
    pub normalized_path: String,
    pub normalized_relative: String,
    pub normalized_suffix: String,
    pub filename: String,
}

/// A local image file under the import root.
#[derive(Debug)]
pub struct IndexedLocalAsset {
    pub absolute_path: String,
    pub relative_path: String,
    pub relative_lower: String,
    pub filename: String,
    pub byte_length: u64,
}

/// (normalized path, relative, suffix, file name)
pub type QueryView = (Seq<char>, Seq<char>, Seq<char>, Seq<char>);

impl View for LocalAssetCandidateQuery {
    type V = QueryView;

    open spec fn view(&self) -> QueryView {
        (self.normalized_path@, self.normalized_relative@, self.normalized_suffix@, self.filename@)
    }
}

/// The lower-cased file name of a path, empty when it has none.
pub open spec fn lower_file_name(p: Seq<char>) -> Seq<char> {
    match path_file_name_of(p) {
        Some(f) => ascii_lower(f),
        None => Seq::empty(),
    }
}

/// The query for a missing path, `None` when it is only slashes.
pub open spec fn candidate_query_of(path: Seq<char>) -> Option<QueryView> {
    let rel = ascii_lower(trim_start(path, CharPat::One('/')));
    if rel.len() == 0 {
        None
    } else {
        Some((path, rel, seq!['/'] + rel, lower_file_name(path)))
    }
}

fn lower_file_name_exec(p: &str) -> (r: String)
    ensures
        r@ == lower_file_name(p@),
{
    match path_file_name(p) {
        Some(f) => string_from_chars(ascii_lower_chars(str_chars(f.as_str()).as_slice()).as_slice()),
        None => String::new(),
    }
}

/// The query that local files are matched against for a missing path.
pub fn build_candidate_query(normalized_path: &str) -> (r: Option<LocalAssetCandidateQuery>)
    ensures
        match r {
            Some(q) => candidate_query_of(normalized_path@) == Some(q@),
            None => candidate_query_of(normalized_path@) is None,
        },
{
    let rel = ascii_lower_chars(
        trim_start_chars(str_chars(normalized_path).as_slice(), &CharPat::One('/')).as_slice(),
    );
    if rel.len() == 0 {
        return None;
    }
    let mut suffix = vec!['/'];
    push_all(&mut suffix, rel.as_slice());
    Some(
        LocalAssetCandidateQuery {
            normalized_path: string_from_chars(str_chars(normalized_path).as_slice()),
            normalized_relative: string_from_chars(rel.as_slice()),
            normalized_suffix: string_from_chars(suffix.as_slice()),
            filename: lower_file_name_exec(normalized_path),
        },
    )
}

/// The local asset indexed for a file: its relative path with forward slashes,
/// lower-cased, and its lower-cased file name.
pub open spec fn indexed_asset_of(absolute: Seq<char>, relative: Seq<char>) -> (Seq<char>, Seq<char>) {
    (ascii_lower(replace(relative, "\\"@, "/"@)), lower_file_name(absolute))
}

impl IndexedLocalAsset {
    /// The index entry of a local file, from its canonical path, its path
    /// relative to the import root and its size.
    pub fn new(absolute_path: &str, relative_path: &str, byte_length: u64) -> (r: IndexedLocalAsset)
        ensures
            r.absolute_path@ == absolute_path@,
            r.relative_path@ == relative_path@,
            (r.relative_lower@, r.filename@) == indexed_asset_of(absolute_path@, relative_path@),
            r.byte_length == byte_length,
    {
        proof {
            reveal_strlit("\\");
        }
        let rel = replace_chars(
            str_chars(relative_path).as_slice(),
            chars_of("\\").as_slice(),
            chars_of("/").as_slice(),
        );
        IndexedLocalAsset {
            absolute_path: string_from_chars(str_chars(absolute_path).as_slice()),
            relative_path: string_from_chars(str_chars(relative_path).as_slice()),
            relative_lower: string_from_chars(ascii_lower_chars(rel.as_slice()).as_slice()),
            filename: lower_file_name_exec(absolute_path),
            byte_length,
        }
    }
}

/// How a local file matches a query: by its relative path or a suffix of it,
/// else by its non-empty file name, else not at all.
pub open spec fn rank_of(relative_lower: Seq<char>, filename: Seq<char>, q: QueryView) -> Option<
    LocalAssetCandidateRank,
> {
    if relative_lower == q.1 || ends_with(relative_lower, q.2) {
        Some(LocalAssetCandidateRank::PathSuffix)
    } else if q.3.len() > 0 && filename == q.3 {
        Some(LocalAssetCandidateRank::Filename)
    } else {
        None
    }
}

/// A local file whose lower-cased relative path is the missing path's
/// relative form, or ends with a slash followed by it, matches by path suffix,
/// whatever its file name. One that does not, but whose lower-cased file name
/// is the missing path's non-empty lower-cased file name, matches by file name
/// only; any other file does not match.
pub proof fn path_suffix_match_ranks_as_suffix(
    missing_path: Seq<char>,
    relative_lower: Seq<char>,
    filename: Seq<char>,
)
    requires
        candidate_query_of(missing_path) is Some,
    ensures
        ({
            let q = candidate_query_of(missing_path)->0;
            let rel = ascii_lower(trim_start(missing_path, CharPat::One('/')));
            let suffix_match = relative_lower == rel || (relative_lower.len() > rel.len()
                && relative_lower[relative_lower.len() - rel.len() - 1] == '/'
                && relative_lower.skip(relative_lower.len() - rel.len()) == rel);
            let name = lower_file_name(missing_path);
            &&& suffix_match ==> rank_of(relative_lower, filename, q) == Some(
                LocalAssetCandidateRank::PathSuffix,
            )
            &&& !suffix_match && name.len() > 0 && filename == name ==> rank_of(
                relative_lower,
                filename,
                q,
            ) == Some(LocalAssetCandidateRank::Filename)
            &&& !suffix_match && !(name.len() > 0 && filename == name) ==> rank_of(
                relative_lower,
                filename,
                q,
            ) is None
        }),
{
    let q = candidate_query_of(missing_path)->0;
    let rel = q.1;
    let n = relative_lower.len();
    let suf = seq!['/'] + rel;
    if n > rel.len() && relative_lower[n - rel.len() - 1] == '/' && relative_lower.skip(n - rel.len())
        == rel {
        assert(relative_lower.skip(n - suf.len()) =~= suf) by {
            assert forall|i: int| 0 <= i < suf.len() implies relative_lower.skip(n - suf.len())[i]
                == suf[i] by {
                if i > 0 {
                    assert(relative_lower.skip(n - rel.len())[i - 1] == rel[i - 1]);
                }
            }
        }
    }
    if ends_with(relative_lower, suf) {
        let t = relative_lower.skip(n - suf.len());
        assert(t == suf);
        assert(t[0] == suf[0]);
        assert(relative_lower[n - rel.len() - 1] == t[0]);
        assert(suf.drop_first() =~= rel);
        assert(relative_lower.skip(n - rel.len()) =~= t.drop_first());
    }
}

/// How a local file matches a query, if it does.
pub fn rank_indexed_local_asset(local_asset: &IndexedLocalAsset, query: &LocalAssetCandidateQuery) -> (r: Option<
    LocalAssetCandidateRank,
>)
    ensures
        r == rank_of(local_asset.relative_lower@, local_asset.filename@, query@),
{
    let rl = str_chars(local_asset.relative_lower.as_str());
    if str_eq(local_asset.relative_lower.as_str(), query.normalized_relative.as_str()) || has_suffix(
        rl.as_slice(),
        str_chars(query.normalized_suffix.as_str()).as_slice(),
    ) {
        Some(LocalAssetCandidateRank::PathSuffix)
    } else if str_chars(query.filename.as_str()).len() > 0 && str_eq(
        local_asset.filename.as_str(),
        query.filename.as_str(),
    ) {
        Some(LocalAssetCandidateRank::Filename)
    } else {
        None
    }
}

/// The queries for missing paths, one per distinct path that has one.
pub open spec fn queries_of(paths: Seq<Seq<char>>) -> Seq<QueryView>
    decreases paths.len(),
{
    if paths.len() == 0 {
        Seq::empty()
    } else {
        let prev = queries_of(paths.drop_last());
        match candidate_query_of(paths.last()) {
            Some(q) => if exists|i: int| 0 <= i < prev.len() && #[trigger] prev[i].0 == q.0 {
                prev
            } else {
                prev.push(q)
            },
            None => prev,
        }
    }
}

/// The queries that local files are matched against, one per distinct path.
pub fn candidate_queries(normalized_paths: &[String]) -> (r: Vec<LocalAssetCandidateQuery>)
    ensures
        r@.map_values(|q: LocalAssetCandidateQuery| q@) == queries_of(texts(normalized_paths@)),
{
    let ghost ps = texts(normalized_paths@);
    let mut out: Vec<LocalAssetCandidateQuery> = Vec::new();
    let mut i: usize = 0;
    proof {
        assert(ps.take(0) =~= Seq::<Seq<char>>::empty());
        assert(out@.map_values(|q: LocalAssetCandidateQuery| q@) =~= Seq::<QueryView>::empty());
    }
    while i < normalized_paths.len()
        invariant
            0 <= i <= normalized_paths@.len(),
            ps == texts(normalized_paths@),
            out@.map_values(|q: LocalAssetCandidateQuery| q@) == queries_of(ps.take(i as int)),
        decreases normalized_paths@.len() - i,
    {
        proof {
            assert(ps.take(i + 1).drop_last() =~= ps.take(i as int));
            assert(ps.take(i + 1).last() == normalized_paths@[i as int]@);
        }
        let ghost prev = out@.map_values(|q: LocalAssetCandidateQuery| q@);
        match build_candidate_query(normalized_paths[i].as_str()) {
            Some(q) => {
                let mut seen = false;
                let mut j: usize = 0;
                while j < out.len()
                    invariant
                        0 <= j <= out@.len(),
                        prev == out@.map_values(|q: LocalAssetCandidateQuery| q@),
                        seen == exists|k: int| 0 <= k < j && #[trigger] prev[k].0 == q@.0,
                    decreases out@.len() - j,
                {
                    proof {
                        assert(prev[j as int] == out@[j as int]@);
                        assert(prev[j as int].0 == out@[j as int].normalized_path@);
                    }
                    if str_eq(out[j].normalized_path.as_str(), q.normalized_path.as_str()) {
                        seen = true;
                    }
                    j = j + 1;
                }
                if !seen {
                    out.push(q);
                    proof {
                        assert(out@.map_values(|q: LocalAssetCandidateQuery| q@) =~= prev.push(
                            out@.last()@,
                        ));
                    }
                }
            },
            None => {},
        }
        i = i + 1;
    }
    proof {
        assert(ps.take(i as int) =~= ps);
    }
    out
}

pub open spec fn rank_num(r: LocalAssetCandidateRank) -> int {
    match r {
        LocalAssetCandidateRank::PathSuffix => 0,
        LocalAssetCandidateRank::Filename => 1,
    }
}

/// Lexicographic order of paths by their components.
pub open spec fn components_lt(a: Seq<Seq<char>>, b: Seq<Seq<char>>) -> bool
    decreases a.len(),
{
    if a.len() == 0 {
        b.len() > 0
    } else if b.len() == 0 {
        false
    } else if seq_lt(a[0], b[0]) {
        true
    } else if a[0] != b[0] {
        false
    } else {
        components_lt(a.drop_first(), b.drop_first())
    }
}

/// (rank, relative path) of a candidate.
pub type CandKey = (LocalAssetCandidateRank, Seq<char>);

/// Whether one candidate comes before another: better rank first, then by
/// relative path, compared component by component.
pub open spec fn candidate_before(a: CandKey, b: CandKey) -> bool {
    rank_num(a.0) < rank_num(b.0) || (rank_num(a.0) == rank_num(b.0) && components_lt(
        path_components_of(a.1),
        path_components_of(b.1),
    ))
}

pub open spec fn cand_key(c: LocalAssetCandidate) -> CandKey {
    (c.rank, c.relative_path@)
}

pub open spec fn candidate_insert_pos(s: Seq<LocalAssetCandidate>, x: LocalAssetCandidate) -> nat
    decreases s.len(),
{
    if s.len() == 0 {
        0
    } else if candidate_before(cand_key(x), cand_key(s[0])) {
        0
    } else {
        1 + candidate_insert_pos(s.drop_first(), x)
    }
}

/// Candidates in order; candidates that neither comes before keep their order.
pub open spec fn candidates_ordered(s: Seq<LocalAssetCandidate>) -> Seq<LocalAssetCandidate>
    decreases s.len(),
{
    if s.len() == 0 {
        s
    } else {
        let t = candidates_ordered(s.drop_last());
        t.insert(candidate_insert_pos(t, s.last()) as int, s.last())
    }
}

pub(crate) fn components_less(a: &Vec<String>, b: &Vec<String>) -> (r: bool)
    ensures
        r == components_lt(a.deep_view(), b.deep_view()),
{
    let ghost av = a.deep_view();
    let ghost bv = b.deep_view();
    let mut i: usize = 0;
    proof {
        assert(av.skip(0) =~= av);
        assert(bv.skip(0) =~= bv);
    }
    while i < a.len() && i < b.len()
        invariant
            0 <= i <= a@.len(),
            i <= b@.len(),
            av == a.deep_view(),
            bv == b.deep_view(),
            components_lt(av, bv) == components_lt(av.skip(i as int), bv.skip(i as int)),
        decreases a@.len() - i,
    {
        proof {
            assert(av.skip(i as int)[0] == av[i as int]);
            assert(bv.skip(i as int)[0] == bv[i as int]);
            assert(av.skip(i as int).drop_first() =~= av.skip(i + 1));
            assert(bv.skip(i as int).drop_first() =~= bv.skip(i + 1));
        }
        let x = str_chars(a[i].as_str());
        let y = str_chars(b[i].as_str());
        if chars_less(x.as_slice(), y.as_slice()) {
            return true;
        }
        if !chars_eq(x.as_slice(), y.as_slice()) {
            return false;
        }
        i = i + 1;
    }
    i == a.len() && i < b.len()
}

fn candidate_less(a: &LocalAssetCandidate, b: &LocalAssetCandidate) -> (r: bool)
    ensures
        r == candidate_before(cand_key(*a), cand_key(*b)),
{
    let ra: u8 = match a.rank {
        LocalAssetCandidateRank::PathSuffix => 0,
        LocalAssetCandidateRank::Filename => 1,
    };
    let rb: u8 = match b.rank {
        LocalAssetCandidateRank::PathSuffix => 0,
        LocalAssetCandidateRank::Filename => 1,
    };
    if ra < rb {
        return true;
    }
    if ra > rb {
        return false;
    }
    let ca = path_components(a.relative_path.as_str());
    let cb = path_components(b.relative_path.as_str());
    components_less(&ca, &cb)
}

fn candidate_pos(sorted: &Vec<LocalAssetCandidate>, x: &LocalAssetCandidate) -> (r: usize)
    ensures
        r == candidate_insert_pos(sorted@, *x),
        r <= sorted@.len(),
{
    let mut j: usize = 0;
    proof {
        assert(sorted@.skip(0) =~= sorted@);
    }
    while j < sorted.len() && !candidate_less(x, &sorted[j])
        invariant
            0 <= j <= sorted@.len(),
            candidate_insert_pos(sorted@, *x) == j + candidate_insert_pos(sorted@.skip(j as int), *x),
        decreases sorted@.len() - j,
    {
        proof {
            assert(sorted@.skip(j as int)[0] == sorted@[j as int]);
            assert(sorted@.skip(j as int).drop_first() =~= sorted@.skip(j + 1));
        }
        j = j + 1;
    }
    proof {
        if j < sorted@.len() {
            assert(sorted@.skip(j as int)[0] == sorted@[j as int]);
        }
    }
    j
}

/// The best `limit` candidates: by rank, then by relative path.
pub fn order_candidates(candidates: Vec<LocalAssetCandidate>, limit: usize) -> (r: Vec<LocalAssetCandidate>)
    ensures
        r@ == (if candidates_ordered(candidates@).len() <= limit {
            candidates_ordered(candidates@)
        } else {
            candidates_ordered(candidates@).take(limit as int)
        }),
{
    let ghost orig = candidates@;
    let mut rest = candidates;
    let n: usize = rest.len();
    let mut sorted: Vec<LocalAssetCandidate> = Vec::new();
    let mut k: usize = 0;
    proof {
        assert(orig.take(0) =~= Seq::<LocalAssetCandidate>::empty());
        assert(orig.skip(0) =~= orig);
    }
    while rest.len() > 0
        invariant
            k + rest@.len() == orig.len(),
            orig.len() == n,
            sorted@ == candidates_ordered(orig.take(k as int)),
            rest@ == orig.skip(k as int),
        decreases rest@.len(),
    {
        let x = rest.remove(0);
        proof {
            assert(x == orig[k as int]);
            assert(rest@ =~= orig.skip(k + 1));
            assert(orig.take(k + 1).drop_last() =~= orig.take(k as int));
        }
        let p = candidate_pos(&sorted, &x);
        sorted.insert(p, x);
        k = k + 1;
    }
    proof {
        assert(orig.take(k as int) =~= orig);
    }
    sorted.truncate(limit);
    sorted
}

/// (query index, candidate) for each query that a local file matches.
pub open spec fn file_matches(
    relative_lower: Seq<char>,
    filename: Seq<char>,
    queries: Seq<QueryView>,
) -> Seq<(int, LocalAssetCandidateRank)>
    decreases queries.len(),
{
    if queries.len() == 0 {
        Seq::empty()
    } else {
        let prev = file_matches(relative_lower, filename, queries.drop_last());
        match rank_of(relative_lower, filename, queries.last()) {
            Some(r) => prev.push((queries.len() - 1, r)),
            None => prev,
        }
    }
}

/// The queries that a local file matches, with how well, in query order.
pub fn match_local_asset(local_asset: &IndexedLocalAsset, queries: &[LocalAssetCandidateQuery]) -> (r: Vec<
    (usize, LocalAssetCandidateRank),
>)
    ensures
        r@.map_values(|e: (usize, LocalAssetCandidateRank)| (e.0 as int, e.1)) == file_matches(
            local_asset.relative_lower@,
            local_asset.filename@,
            queries@.map_values(|q: LocalAssetCandidateQuery| q@),
        ),
{
    let ghost qs = queries@.map_values(|q: LocalAssetCandidateQuery| q@);
    let mut out: Vec<(usize, LocalAssetCandidateRank)> = Vec::new();
    let mut i: usize = 0;
    proof {
        assert(qs.take(0) =~= Seq::<QueryView>::empty());
        assert(out@.map_values(|e: (usize, LocalAssetCandidateRank)| (e.0 as int, e.1))
            =~= Seq::<(int, LocalAssetCandidateRank)>::empty());
    }
    while i < queries.len()
        invariant
            0 <= i <= queries@.len(),
            qs == queries@.map_values(|q: LocalAssetCandidateQuery| q@),
            out@.map_values(|e: (usize, LocalAssetCandidateRank)| (e.0 as int, e.1)) == file_matches(
                local_asset.relative_lower@,
                local_asset.filename@,
                qs.take(i as int),
            ),
        decreases queries@.len() - i,
    {
        proof {
            assert(qs.take(i + 1).drop_last() =~= qs.take(i as int));
            assert(qs.take(i + 1).last() == queries@[i as int]@);
        }
        let ghost before = out@;
        match rank_indexed_local_asset(local_asset, &queries[i]) {
            Some(r) => {
                out.push((i, r));
                proof {
                    assert(out@.map_values(|e: (usize, LocalAssetCandidateRank)| (e.0 as int, e.1))
                        =~= before.map_values(
                        |e: (usize, LocalAssetCandidateRank)| (e.0 as int, e.1),
                    ).push((i as int, r)));
                }
            },
            None => {},
        }
        i = i + 1;
    }
    proof {
        assert(qs.take(i as int) =~= qs);
    }
    out
}

/// Whether the components of `base` begin the components of `path`, as
/// `Path::starts_with` compares them.
pub open spec fn components_prefix(base: Seq<Seq<char>>, path: Seq<Seq<char>>) -> bool {
    base.len() <= path.len() && path.take(base.len() as int) == base
}

/// The first check of an import candidate, on its canonical path and the
/// canonical import root: a candidate outside the root is refused.
pub fn check_import_candidate_location(canonical_root: &str, canonical_candidate: &str) -> (r: Result<
    (),
    SiteError,
>)
    ensures
        components_prefix(path_components_of(canonical_root@), path_components_of(canonical_candidate@))
            ==> r is Ok,
        !components_prefix(path_components_of(canonical_root@), path_components_of(canonical_candidate@))
            ==> (r matches Err(SiteError::BadRequest(m)) && m@
            == "import candidate is outside the configured import path"@),
{
    let base = path_components(canonical_root);
    let path = path_components(canonical_candidate);
    let ghost bv = base.deep_view();
    let ghost pv = path.deep_view();
    if base.len() > path.len() {
        return Err(SiteError::BadRequest("import candidate is outside the configured import path".to_string()));
    }
    let mut i: usize = 0;
    while i < base.len()
        invariant
            base.len() <= path.len(),
            0 <= i <= base.len(),
            bv == base.deep_view(),
            pv == path.deep_view(),
            bv == path_components_of(canonical_root@),
            pv == path_components_of(canonical_candidate@),
            forall|j: int| 0 <= j < i ==> bv[j] == pv[j],
        decreases base.len() - i,
    {
        if !str_eq(base[i].as_str(), path[i].as_str()) {
            proof {
                assert(bv[i as int] == base@[i as int]@);
                assert(pv[i as int] == path@[i as int]@);
                assert(pv.take(bv.len() as int)[i as int] != bv[i as int]);
            }
            return Err(SiteError::BadRequest("import candidate is outside the configured import path".to_string()));
        }
        proof {
            assert(bv[i as int] == base@[i as int]@);
            assert(pv[i as int] == path@[i as int]@);
        }
        i = i + 1;
    }
    proof {
        assert(pv.take(bv.len() as int) =~= bv);
    }
    Ok(())
}

/// The last checks of an import candidate inside the root: it must be a file
/// and name an image by its extension.
pub fn check_import_candidate_file(canonical_candidate: &str, is_file: bool) -> (r: Result<(), SiteError>)
    ensures
        !is_file ==> (r matches Err(SiteError::BadRequest(m)) && m@ == "import candidate is not a file"@),
        is_file && !has_image_ext(canonical_candidate@) ==> (r matches Err(SiteError::BadRequest(m))
            && m@ == "import candidate is not a supported image file"@),
        is_file && has_image_ext(canonical_candidate@) ==> r is Ok,
{
    if !is_file {
        return Err(SiteError::BadRequest("import candidate is not a file".to_string()));
    }
    if !path_has_image_extension(canonical_candidate) {
        return Err(SiteError::BadRequest("import candidate is not a supported image file".to_string()));
    }
    Ok(())
}

} // verus!
