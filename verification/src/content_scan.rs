//! Scanning of content for legacy links, images and markup, the fixes it
//! proposes, and the rendering of asset shortcodes.
use crate::deps::string_from_chars;
use crate::entities::{Asset, AssetVariant, ContentAlias, ContentItem};
use crate::links::{
    append_fragment, asset_lookup_key, display_href, display_internal_href, escape_html,
    escape_shortcode_attr, html_escaped, lookup_key, normalize_internal_path,
    normalize_scan_href, normalized_internal_path, remote_image_url, remote_url_of, scan_href,
    shortcode_attr_escaped, with_fragment,
};
use crate::site::{primary_route, primary_route_chars};
use crate::strings::{
    ascii_lower, ascii_lower_chars, chars_eq, chars_of, decimal, decimal_chars, push_all,
    str_chars, str_eq, trim, trim_chars, trim_start, trim_start_chars, CharPat,
};
use vstd::prelude::*;

verus! {

/// An asset that a finding proposes to use.
#[derive(Debug)]
pub struct AssetReference {
    pub asset_id: String,
    pub variant: String,
    pub asset_label: String,
}

/// An asset reference as (id, variant, label).
pub type AssetRefView = (Seq<char>, Seq<char>, Seq<char>);

impl View for AssetReference {
    type V = AssetRefView;

    open spec fn view(&self) -> AssetRefView {
        (self.asset_id@, self.variant@, self.asset_label@)
    }
}

impl Clone for AssetReference {
    fn clone(&self) -> (r: AssetReference)
        ensures
            r@ == self@,
    {
        AssetReference {
            asset_id: self.asset_id.clone(),
            variant: self.variant.clone(),
            asset_label: self.asset_label.clone(),
        }
    }
}

pub open spec fn opt_text(o: Option<String>) -> Option<Seq<char>> {
    match o {
        Some(s) => Some(s@),
        None => None,
    }
}

pub open spec fn opt_chars(o: Option<Vec<char>>) -> Option<Seq<char>> {
    match o {
        Some(s) => Some(s@),
        None => None,
    }
}

pub open spec fn opt_asset(o: Option<AssetReference>) -> Option<AssetRefView> {
    match o {
        Some(a) => Some(a@),
        None => None,
    }
}

/// The shortcode that embeds an asset in content.
pub open spec fn shortcode_of(
    asset_id: Seq<char>,
    variant: Seq<char>,
    alt: Seq<char>,
    title: Option<Seq<char>>,
) -> Seq<char> {
    let head = "[[asset id=\""@ + asset_id + "\" variant=\""@ + shortcode_attr_escaped(variant)
        + "\" alt=\""@ + shortcode_attr_escaped(alt) + "\""@;
    let with_title = match title {
        Some(t) if trim(t, CharPat::Ws).len() > 0 => head + " title=\""@
            + shortcode_attr_escaped(t) + "\""@,
        _ => head,
    };
    with_title + "]]"@
}

pub(crate) fn shortcode_chars(asset_id: &[char], variant: &[char], alt: &[char], title: &Option<Vec<char>>) -> (r: Vec<char>)
    ensures
        r@ == shortcode_of(asset_id@, variant@, alt@, opt_chars(*title)),
{
    let mut v = chars_of("[[asset id=\"");
    push_all(&mut v, asset_id);
    push_all(&mut v, chars_of("\" variant=\"").as_slice());
    push_all(&mut v, escape_shortcode_attr(variant).as_slice());
    push_all(&mut v, chars_of("\" alt=\"").as_slice());
    push_all(&mut v, escape_shortcode_attr(alt).as_slice());
    push_all(&mut v, chars_of("\"").as_slice());
    match title {
        Some(t) => {
            let trimmed = trim_chars(t.as_slice(), &CharPat::Ws);
            if trimmed.len() > 0 {
                push_all(&mut v, chars_of(" title=\"").as_slice());
                push_all(&mut v, escape_shortcode_attr(t.as_slice()).as_slice());
                push_all(&mut v, chars_of("\"").as_slice());
            }
        },
        None => {},
    }
    push_all(&mut v, chars_of("]]").as_slice());
    v
}

/// The shortcode that embeds an asset variant, with its alt text and an
/// optional title.
pub fn format_asset_shortcode(asset_id: &str, variant: &str, alt: &str, title: Option<&str>) -> (r: String)
    ensures
        r@ == shortcode_of(
            asset_id@,
            variant@,
            alt@,
            match title {
                Some(t) => Some(t@),
                None => None,
            },
        ),
{
    let t = match title {
        Some(t) => Some(str_chars(t)),
        None => None,
    };
    let v = shortcode_chars(
        str_chars(asset_id).as_slice(),
        str_chars(variant).as_slice(),
        str_chars(alt).as_slice(),
        &t,
    );
    string_from_chars(v.as_slice())
}

/// The file that renders an asset variant and its dimensions.
#[derive(Debug)]
pub struct AssetRenderCandidate {
    pub filename: String,
    pub width: Option<i32>,
    pub height: Option<i32>,
}

/// The candidate that renders a variant of an asset: the stored original, or
/// the first variant of that kind.
pub open spec fn render_candidate_of(asset: Asset, variants: Seq<AssetVariant>, kind: Seq<char>) -> Option<
    (Seq<char>, Option<i32>, Option<i32>),
> {
    if kind == "original"@ {
        Some((asset.storage_basename@, asset.width, asset.height))
    } else {
        first_variant(variants, kind)
    }
}

pub open spec fn first_variant(variants: Seq<AssetVariant>, kind: Seq<char>) -> Option<
    (Seq<char>, Option<i32>, Option<i32>),
>
    decreases variants.len(),
{
    if variants.len() == 0 {
        None
    } else if variants[0].variant_kind@ == kind {
        Some((variants[0].filename@, variants[0].width, variants[0].height))
    } else {
        first_variant(variants.drop_first(), kind)
    }
}

/// Picks the file that renders `variant_kind` of an asset.
pub fn resolve_asset_render_candidate(asset: &Asset, variants: &[AssetVariant], variant_kind: &str) -> (r: Option<AssetRenderCandidate>)
    ensures
        match r {
            Some(c) => render_candidate_of(*asset, variants@, variant_kind@) == Some(
                (c.filename@, c.width, c.height),
            ),
            None => render_candidate_of(*asset, variants@, variant_kind@) is None,
        },
{
    if str_eq(variant_kind, "original") {
        return Some(
            AssetRenderCandidate {
                filename: asset.storage_basename.clone(),
                width: asset.width,
                height: asset.height,
            },
        );
    }
    proof {
        assert(variants@.skip(0) =~= variants@);
    }
    let mut i: usize = 0;
    while i < variants.len()
        invariant
            0 <= i <= variants@.len(),
            variant_kind@ != "original"@,
            first_variant(variants@, variant_kind@) == first_variant(
                variants@.skip(i as int),
                variant_kind@,
            ),
        decreases variants@.len() - i,
    {
        proof {
            assert(variants@.skip(i as int)[0] == variants@[i as int]);
            assert(variants@.skip(i as int).drop_first() =~= variants@.skip(i + 1));
        }
        if str_eq(variants[i].variant_kind.as_str(), variant_kind) {
            return Some(
                AssetRenderCandidate {
                    filename: variants[i].filename.clone(),
                    width: variants[i].width,
                    height: variants[i].height,
                },
            );
        }
        i = i + 1;
    }
    None
}

/// The `<figure>` that an asset shortcode renders to.
pub open spec fn figure_html(
    filename: Seq<char>,
    width: Option<i32>,
    height: Option<i32>,
    alt: Seq<char>,
    title: Option<Seq<char>>,
) -> Seq<char> {
    let width_attr = match width {
        Some(w) if w > 0 => " width=\""@ + decimal(w as nat) + "\""@,
        _ => Seq::empty(),
    };
    let height_attr = match height {
        Some(h) if h > 0 => " height=\""@ + decimal(h as nat) + "\""@,
        _ => Seq::empty(),
    };
    let caption = match title {
        Some(t) if trim(t, CharPat::Ws).len() > 0 => "<figcaption>"@ + html_escaped(t)
            + "</figcaption>"@,
        _ => Seq::empty(),
    };
    "<figure><img src=\"/media/images/"@ + html_escaped(filename) + "\" alt=\""@ + html_escaped(
        alt,
    ) + "\" loading=\"lazy\""@ + width_attr + height_attr + " />"@ + caption + "</figure>"@
}

fn dimension_attr(name: &str, value: Option<i32>) -> (r: Vec<char>)
    ensures
        r@ == (match value {
            Some(w) if w > 0 => " "@ + name@ + "=\""@ + decimal(w as nat) + "\""@,
            _ => Seq::empty(),
        }),
{
    match value {
        Some(w) => {
            if w > 0 {
                let mut v = chars_of(" ");
                push_all(&mut v, str_chars(name).as_slice());
                push_all(&mut v, chars_of("=\"").as_slice());
                push_all(&mut v, decimal_chars(w as u64).as_slice());
                push_all(&mut v, chars_of("\"").as_slice());
                v
            } else {
                Vec::new()
            }
        },
        None => Vec::new(),
    }
}

fn figure_chars(candidate: &AssetRenderCandidate, alt: &[char], title: &Option<Vec<char>>) -> (r: Vec<char>)
    ensures
        r@ == figure_html(
            candidate.filename@,
            candidate.width,
            candidate.height,
            alt@,
            opt_chars(*title),
        ),
{
    proof {
        reveal_strlit(" ");
        reveal_strlit("width");
        reveal_strlit("height");
        reveal_strlit(" width=\"");
        reveal_strlit(" height=\"");
        reveal_strlit("=\"");
    }
    let mut v = chars_of("<figure><img src=\"/media/images/");
    push_all(&mut v, escape_html(str_chars(candidate.filename.as_str()).as_slice()).as_slice());
    push_all(&mut v, chars_of("\" alt=\"").as_slice());
    push_all(&mut v, escape_html(alt).as_slice());
    push_all(&mut v, chars_of("\" loading=\"lazy\"").as_slice());
    let w = dimension_attr("width", candidate.width);
    let h = dimension_attr("height", candidate.height);
    proof {
        assert(" "@ + "width"@ + "=\""@ =~= " width=\""@);
        assert(" "@ + "height"@ + "=\""@ =~= " height=\""@);
    }
    push_all(&mut v, w.as_slice());
    push_all(&mut v, h.as_slice());
    push_all(&mut v, chars_of(" />").as_slice());
    match title {
        Some(t) => {
            if trim_chars(t.as_slice(), &CharPat::Ws).len() > 0 {
                push_all(&mut v, chars_of("<figcaption>").as_slice());
                push_all(&mut v, escape_html(t.as_slice()).as_slice());
                push_all(&mut v, chars_of("</figcaption>").as_slice());
            }
        },
        None => {},
    }
    push_all(&mut v, chars_of("</figure>").as_slice());
    v
}

/// The `<figure>` markup of an asset, with its alt text and an optional caption.
pub fn render_asset_figure_html(candidate: &AssetRenderCandidate, alt: &str, title: Option<&str>) -> (r: String)
    ensures
        r@ == figure_html(
            candidate.filename@,
            candidate.width,
            candidate.height,
            alt@,
            match title {
                Some(t) => Some(t@),
                None => None,
            },
        ),
{
    let t = match title {
        Some(t) => Some(str_chars(t)),
        None => None,
    };
    let v = figure_chars(candidate, str_chars(alt).as_slice(), &t);
    string_from_chars(v.as_slice())
}

/// The pieces of `raw` between the separators `,`, `\n` and `\r`.
pub open spec fn domain_pieces(raw: Seq<char>) -> Seq<Seq<char>>
    decreases raw.len(),
{
    if raw.len() == 0 {
        seq![Seq::empty()]
    } else {
        let ps = domain_pieces(raw.drop_last());
        let c = raw.last();
        if c == ',' || c == '\n' || c == '\r' {
            ps.push(Seq::empty())
        } else {
            ps.update(ps.len() - 1, ps.last().push(c))
        }
    }
}

proof fn lemma_domain_pieces_len(raw: Seq<char>)
    ensures
        domain_pieces(raw).len() >= 1,
    decreases raw.len(),
{
    if raw.len() > 0 {
        lemma_domain_pieces_len(raw.drop_last());
    }
}

/// The domain of one piece: trimmed, without leading dots, lower-cased.
pub open spec fn domain_of_piece(piece: Seq<char>) -> Seq<char> {
    ascii_lower(trim_start(trim(piece, CharPat::Ws), CharPat::One('.')))
}

/// The domains of a list, in order, each once.
pub open spec fn domain_list(pieces: Seq<Seq<char>>) -> Seq<Seq<char>>
    decreases pieces.len(),
{
    if pieces.len() == 0 {
        Seq::empty()
    } else {
        let seen = domain_list(pieces.drop_last());
        let d = domain_of_piece(pieces.last());
        if d.len() == 0 || seen.contains(d) {
            seen
        } else {
            seen.push(d)
        }
    }
}

/// Reads a list of domains separated by commas or line breaks: each trimmed,
/// stripped of leading dots and lower-cased; blanks and repeats dropped.
pub fn parse_domain_list(raw: &str) -> (r: Vec<String>)
    ensures
        r@.map_values(|d: String| d@) == domain_list(domain_pieces(raw@)),
        forall|i: int, j: int| 0 <= i < j < r@.len() ==> r@[i]@ != r@[j]@,
        forall|i: int| 0 <= i < r@.len() ==> (#[trigger] r@[i])@.len() > 0,
{
    let chars = str_chars(raw);
    // Split into pieces.
    let mut pieces: Vec<Vec<char>> = Vec::new();
    pieces.push(Vec::new());
    let mut i: usize = 0;
    proof {
        assert(chars@.take(0) =~= Seq::<char>::empty());
        assert(pieces@.map_values(|p: Vec<char>| p@) =~= domain_pieces(chars@.take(0)));
    }
    while i < chars.len()
        invariant
            0 <= i <= chars@.len(),
            pieces@.len() >= 1,
            pieces@.map_values(|p: Vec<char>| p@) == domain_pieces(chars@.take(i as int)),
        decreases chars@.len() - i,
    {
        let c = chars[i];
        proof {
            assert(chars@.take(i + 1).drop_last() =~= chars@.take(i as int));
        }
        if c == ',' || c == '\n' || c == '\r' {
            pieces.push(Vec::new());
            proof {
                assert(pieces@.map_values(|p: Vec<char>| p@) =~= domain_pieces(
                    chars@.take(i + 1),
                ));
            }
        } else {
            let last = pieces.len() - 1;
            let mut piece = pieces.pop().unwrap();
            piece.push(c);
            pieces.push(piece);
            proof {
                assert(pieces@.map_values(|p: Vec<char>| p@) =~= domain_pieces(
                    chars@.take(i + 1),
                ));
            }
        }
        i = i + 1;
    }
    proof {
        assert(chars@.take(i as int) =~= chars@);
    }
    let ghost ps = pieces@.map_values(|p: Vec<char>| p@);
    let mut out: Vec<String> = Vec::new();
    let mut k: usize = 0;
    while k < pieces.len()
        invariant
            0 <= k <= pieces@.len(),
            ps == pieces@.map_values(|p: Vec<char>| p@),
            out@.map_values(|d: String| d@) == domain_list(ps.take(k as int)),
            forall|a: int, b: int| 0 <= a < b < out@.len() ==> out@[a]@ != out@[b]@,
            forall|a: int| 0 <= a < out@.len() ==> (#[trigger] out@[a])@.len() > 0,
        decreases pieces@.len() - k,
    {
        let t = trim_chars(pieces[k].as_slice(), &CharPat::Ws);
        let t2 = trim_start_chars(t.as_slice(), &CharPat::One('.'));
        let d = ascii_lower_chars(t2.as_slice());
        proof {
            assert(ps.take(k + 1).drop_last() =~= ps.take(k as int));
            assert(ps[k as int] == pieces@[k as int]@);
        }
        if d.len() > 0 {
            let mut seen = false;
            let mut j: usize = 0;
            while j < out.len()
                invariant
                    0 <= j <= out@.len(),
                    seen == exists|a: int| 0 <= a < j && out@[a]@ == d@,
                decreases out@.len() - j,
            {
                if !seen && chars_eq(str_chars(out[j].as_str()).as_slice(), d.as_slice()) {
                    seen = true;
                }
                j = j + 1;
            }
            let ghost outs = out@.map_values(|x: String| x@);
            proof {
                assert(seen == outs.contains(d@)) by {
                    if seen {
                        let a = choose|a: int| 0 <= a < j && out@[a]@ == d@;
                        assert(outs[a] == d@);
                    }
                    if outs.contains(d@) {
                        let a = choose|a: int| 0 <= a < outs.len() && outs[a] == d@;
                        assert(out@[a]@ == d@);
                    }
                }
            }
            if !seen {
                out.push(string_from_chars(d.as_slice()));
                proof {
                    assert(out@.map_values(|x: String| x@) =~= outs.push(d@));
                }
            }
        }
        k = k + 1;
    }
    proof {
        assert(ps.take(k as int) =~= ps);
    }
    out
}

/// A link target of a site: the title and displayed path of the content that a
/// normalized path leads to.
pub type LinkTargetView = (Seq<char>, Seq<char>, Seq<char>);

/// What scanning knows of a site: its internal domains, where internal paths
/// lead, and which assets filenames may refer to.
pub struct ScanContext {
    /// Lower-cased host names that count as the site's own.
    pub internal_domains: Vec<String>,
    /// (normalized path, title, displayed path); the first entry for a path wins.
    pub link_targets: Vec<(String, String, String)>,
    /// (lower-cased filename, asset)
    pub asset_matches: Vec<(String, AssetReference)>,
}

pub struct ScanContextView {
    pub domains: Seq<Seq<char>>,
    pub links: Seq<LinkTargetView>,
    pub assets: Seq<(Seq<char>, AssetRefView)>,
}

impl View for ScanContext {
    type V = ScanContextView;

    open spec fn view(&self) -> ScanContextView {
        ScanContextView {
            domains: self.internal_domains@.map_values(|d: String| d@),
            links: self.link_targets@.map_values(|t: (String, String, String)| (t.0@, t.1@, t.2@)),
            assets: self.asset_matches@.map_values(|a: (String, AssetReference)| (a.0@, a.1@)),
        }
    }
}

/// The title and displayed path of the first target recorded for a path.
pub open spec fn first_link(links: Seq<LinkTargetView>, key: Seq<char>) -> Option<(Seq<char>, Seq<char>)>
    decreases links.len(),
{
    if links.len() == 0 {
        None
    } else if links[0].0 == key {
        Some((links[0].1, links[0].2))
    } else {
        first_link(links.drop_first(), key)
    }
}

/// Where an internal link leads: the target's title and its displayed path
/// with the link's fragment.
pub open spec fn link_target_of(ctx: ScanContextView, href: Seq<char>) -> Option<(Seq<char>, Seq<char>)> {
    match scan_href(href, ctx.domains) {
        None => None,
        Some((path, fragment)) => match first_link(ctx.links, path) {
            None => None,
            Some((title, shown)) => Some((title, with_fragment(shown, fragment))),
        },
    }
}

/// The assets recorded under a key, in order.
pub open spec fn assets_under(assets: Seq<(Seq<char>, AssetRefView)>, key: Seq<char>) -> Seq<AssetRefView>
    decreases assets.len(),
{
    if assets.len() == 0 {
        Seq::empty()
    } else {
        let found = assets_under(assets.drop_last(), key);
        if assets.last().0 == key {
            found.push(assets.last().1)
        } else {
            found
        }
    }
}

/// The one asset that all matches agree on, if there are matches and they agree.
pub open spec fn unique_of(matches: Seq<AssetRefView>) -> Option<AssetRefView> {
    if matches.len() > 0 && forall|i: int| 0 <= i < matches.len() ==> #[trigger] matches[i] == matches[0] {
        Some(matches[0])
    } else {
        None
    }
}

/// How an image link resolves: `None` when it has no usable filename, else the
/// unique asset it names, or the remote URL that could be imported instead.
pub open spec fn asset_match_of(ctx: ScanContextView, href: Seq<char>) -> Option<
    Result<AssetRefView, Option<Seq<char>>>,
> {
    match lookup_key(href) {
        None => None,
        Some(key) => Some(
            match unique_of(assets_under(ctx.assets, key)) {
                Some(a) => Ok(a),
                None => Err(remote_url_of(href)),
            },
        ),
    }
}

/// The one asset among matches, when they all agree.
pub fn unique_asset_match(matches: &[AssetReference]) -> (r: Option<AssetReference>)
    ensures
        opt_asset(r) == unique_of(matches@.map_values(|a: AssetReference| a@)),
{
    let ghost ms = matches@.map_values(|a: AssetReference| a@);
    if matches.len() == 0 {
        return None;
    }
    let first = &matches[0];
    let mut i: usize = 1;
    while i < matches.len()
        invariant
            1 <= i <= matches@.len(),
            ms == matches@.map_values(|a: AssetReference| a@),
            first@ == ms[0],
            forall|j: int| 0 <= j < i ==> #[trigger] ms[j] == ms[0],
        decreases matches@.len() - i,
    {
        let same = str_eq(matches[i].asset_id.as_str(), first.asset_id.as_str()) && str_eq(
            matches[i].variant.as_str(),
            first.variant.as_str(),
        ) && str_eq(matches[i].asset_label.as_str(), first.asset_label.as_str());
        if !same {
            proof {
                assert(ms[i as int] != ms[0]);
            }
            return None;
        }
        i = i + 1;
    }
    Some(first.clone())
}

impl ScanContext {
    /// The first target recorded for a normalized path.
    fn lookup_link(&self, key: &[char]) -> (r: Option<(String, String)>)
        ensures
            match r {
                Some(t) => first_link(self@.links, key@) == Some((t.0@, t.1@)),
                None => first_link(self@.links, key@) is None,
            },
    {
        let ghost links = self@.links;
        proof {
            assert(links.skip(0) =~= links);
        }
        let mut i: usize = 0;
        while i < self.link_targets.len()
            invariant
                0 <= i <= self.link_targets@.len(),
                links == self@.links,
                first_link(links, key@) == first_link(links.skip(i as int), key@),
            decreases self.link_targets@.len() - i,
        {
            proof {
                assert(links.skip(i as int)[0] == links[i as int]);
                assert(links.skip(i as int).drop_first() =~= links.skip(i + 1));
            }
            let entry = &self.link_targets[i];
            if chars_eq(str_chars(entry.0.as_str()).as_slice(), key) {
                return Some((entry.1.clone(), entry.2.clone()));
            }
            i = i + 1;
        }
        None
    }

    /// Where an internal link leads.
    pub fn find_link_target(&self, href: &[char]) -> (r: Option<(String, Vec<char>)>)
        ensures
            match r {
                Some(t) => link_target_of(self@, href@) == Some((t.0@, t.1@)),
                None => link_target_of(self@, href@) is None,
            },
    {
        let parsed = match normalize_scan_href(href, self.internal_domains.as_slice()) {
            Some(p) => p,
            None => return None,
        };
        let target = match self.lookup_link(parsed.0.as_slice()) {
            Some(t) => t,
            None => return None,
        };
        let shown = append_fragment(str_chars(target.1.as_str()).as_slice(), &parsed.1);
        Some((target.0, shown))
    }

    /// How an image link resolves against the site's assets.
    pub fn match_asset_url(&self, href: &[char]) -> (r: Option<Result<AssetReference, Option<String>>>)
        ensures
            match r {
                None => asset_match_of(self@, href@) is None,
                Some(Ok(a)) => asset_match_of(self@, href@) == Some(
                    Ok::<AssetRefView, Option<Seq<char>>>(a@),
                ),
                Some(Err(u)) => asset_match_of(self@, href@) == Some(
                    Err::<AssetRefView, Option<Seq<char>>>(opt_text(u)),
                ),
            },
    {
        let key = match asset_lookup_key(href) {
            Some(k) => k,
            None => return None,
        };
        let ghost assets = self@.assets;
        let mut found: Vec<AssetReference> = Vec::new();
        let mut i: usize = 0;
        while i < self.asset_matches.len()
            invariant
                0 <= i <= self.asset_matches@.len(),
                assets == self@.assets,
                found@.map_values(|a: AssetReference| a@) == assets_under(assets.take(i as int), key@),
            decreases self.asset_matches@.len() - i,
        {
            proof {
                assert(assets.take(i + 1).drop_last() =~= assets.take(i as int));
                assert(assets.take(i + 1).last() == assets[i as int]);
            }
            let entry = &self.asset_matches[i];
            if chars_eq(str_chars(entry.0.as_str()).as_slice(), key.as_slice()) {
                found.push(entry.1.clone());
                proof {
                    assert(found@.map_values(|a: AssetReference| a@) =~= assets_under(
                        assets.take(i + 1),
                        key@,
                    ));
                }
            }
            i = i + 1;
        }
        proof {
            assert(assets.take(i as int) =~= assets);
        }
        match unique_asset_match(found.as_slice()) {
            Some(a) => Some(Ok(a)),
            None => Some(Err(remote_image_url(href))),
        }
    }
}


/// The last content item with the given id (a later item replaces an earlier
/// one of the same id).
pub open spec fn last_content(contents: Seq<ContentItem>, id: Seq<char>) -> Option<ContentItem>
    decreases contents.len(),
{
    if contents.len() == 0 {
        None
    } else if contents.last().id@ == id {
        Some(contents.last())
    } else {
        last_content(contents.drop_last(), id)
    }
}

/// The last asset with the given id.
pub open spec fn last_asset(assets: Seq<Asset>, id: Seq<char>) -> Option<Asset>
    decreases assets.len(),
{
    if assets.len() == 0 {
        None
    } else if assets.last().id@ == id {
        Some(assets.last())
    } else {
        last_asset(assets.drop_last(), id)
    }
}

/// The link targets of aliases, in order, for aliases of known content.
pub open spec fn alias_links(aliases: Seq<ContentAlias>, contents: Seq<ContentItem>) -> Seq<LinkTargetView>
    decreases aliases.len(),
{
    if aliases.len() == 0 {
        Seq::empty()
    } else {
        let prev = alias_links(aliases.drop_last(), contents);
        let a = aliases.last();
        match last_content(contents, a.content_id@) {
            Some(c) => prev.push(
                (normalized_internal_path(a.alias_path@), c.title@, display_href(a.alias_path@)),
            ),
            None => prev,
        }
    }
}

/// The root-relative primary route of a content item.
pub open spec fn content_route(c: ContentItem) -> Seq<char> {
    seq!['/'] + trim(primary_route(c), CharPat::One('/'))
}

/// The link target of a content item's primary route.
pub open spec fn content_link(c: ContentItem) -> LinkTargetView {
    (normalized_internal_path(content_route(c)), c.title@, display_href(content_route(c)))
}

/// The asset matches of variants of known assets, keyed by lower-cased filename.
pub open spec fn variant_matches(variants: Seq<AssetVariant>, assets: Seq<Asset>) -> Seq<
    (Seq<char>, AssetRefView),
>
    decreases variants.len(),
{
    if variants.len() == 0 {
        Seq::empty()
    } else {
        let prev = variant_matches(variants.drop_last(), assets);
        let v = variants.last();
        match last_asset(assets, v.asset_id@) {
            Some(a) => prev.push(
                (ascii_lower(v.filename@), (a.id@, v.variant_kind@, a.original_filename@)),
            ),
            None => prev,
        }
    }
}

/// Whether no later asset has the id of asset `k`.
pub open spec fn is_last_of_id(assets: Seq<Asset>, k: int) -> bool {
    forall|j: int| k < j < assets.len() ==> #[trigger] assets[j].id@ != assets[k].id@
}

/// The matches of the first `n` assets that are the last of their id: each
/// under its stored name and under its original name, as the original variant.
pub open spec fn original_matches(assets: Seq<Asset>, n: int) -> Seq<(Seq<char>, AssetRefView)>
    decreases n,
{
    if n <= 0 {
        Seq::empty()
    } else {
        let prev = original_matches(assets, n - 1);
        let a = assets[n - 1];
        if is_last_of_id(assets, n - 1) {
            let r = (a.id@, "original"@, a.original_filename@);
            prev.push((ascii_lower(a.storage_basename@), r)).push(
                (ascii_lower(a.original_filename@), r),
            )
        } else {
            prev
        }
    }
}

/// The scan context of a site with the given domains, content, aliases, assets
/// and variants.
pub open spec fn context_of(
    domains: Seq<String>,
    contents: Seq<ContentItem>,
    aliases: Seq<ContentAlias>,
    assets: Seq<Asset>,
    variants: Seq<AssetVariant>,
) -> ScanContextView {
    ScanContextView {
        domains: domains.map_values(|d: String| d@),
        links: alias_links(aliases, contents) + contents.map_values(|c: ContentItem| content_link(c)),
        assets: variant_matches(variants, assets) + original_matches(assets, assets.len() as int),
    }
}

fn last_content_index(contents: &[ContentItem], id: &str) -> (r: Option<usize>)
    ensures
        match r {
            Some(k) => k < contents@.len() && last_content(contents@, id@) == Some(contents@[k as int]),
            None => last_content(contents@, id@) is None,
        },
{
    let mut found: Option<usize> = None;
    let mut i: usize = 0;
    while i < contents.len()
        invariant
            0 <= i <= contents@.len(),
            match found {
                Some(k) => k < i && last_content(contents@.take(i as int), id@) == Some(
                    contents@[k as int],
                ),
                None => last_content(contents@.take(i as int), id@) is None,
            },
        decreases contents@.len() - i,
    {
        proof {
            assert(contents@.take(i + 1).drop_last() =~= contents@.take(i as int));
        }
        if str_eq(contents[i].id.as_str(), id) {
            found = Some(i);
        }
        i = i + 1;
    }
    proof {
        assert(contents@.take(i as int) =~= contents@);
    }
    found
}

fn last_asset_index(assets: &[Asset], id: &str) -> (r: Option<usize>)
    ensures
        match r {
            Some(k) => k < assets@.len() && last_asset(assets@, id@) == Some(assets@[k as int]),
            None => last_asset(assets@, id@) is None,
        },
{
    let mut found: Option<usize> = None;
    let mut i: usize = 0;
    while i < assets.len()
        invariant
            0 <= i <= assets@.len(),
            match found {
                Some(k) => k < i && last_asset(assets@.take(i as int), id@) == Some(
                    assets@[k as int],
                ),
                None => last_asset(assets@.take(i as int), id@) is None,
            },
        decreases assets@.len() - i,
    {
        proof {
            assert(assets@.take(i + 1).drop_last() =~= assets@.take(i as int));
        }
        if str_eq(assets[i].id.as_str(), id) {
            found = Some(i);
        }
        i = i + 1;
    }
    proof {
        assert(assets@.take(i as int) =~= assets@);
    }
    found
}

fn lower_string(s: &str) -> (r: String)
    ensures
        r@ == ascii_lower(s@),
{
    let v = ascii_lower_chars(str_chars(s).as_slice());
    string_from_chars(v.as_slice())
}

fn asset_ref(asset_id: &String, variant: String, asset_label: &String) -> (r: AssetReference)
    ensures
        r@ == (asset_id@, variant@, asset_label@),
{
    AssetReference { asset_id: asset_id.clone(), variant, asset_label: asset_label.clone() }
}

impl ScanContext {
    /// The scan context of a site: its internal domains, the link targets of
    /// its aliases (first) and of its content routes, and the filenames under
    /// which its assets and their variants may be referred to.
    pub fn build(
        domains: &[String],
        contents: &[ContentItem],
        aliases: &[ContentAlias],
        assets: &[Asset],
        variants: &[AssetVariant],
    ) -> (r: ScanContext)
        ensures
            r@ == context_of(domains@, contents@, aliases@, assets@, variants@),
    {
        let mut internal_domains: Vec<String> = Vec::new();
        let mut i: usize = 0;
        while i < domains.len()
            invariant
                0 <= i <= domains@.len(),
                internal_domains@.len() == i,
                forall|j: int| 0 <= j < i ==> (#[trigger] internal_domains@[j])@ == domains@[j]@,
            decreases domains@.len() - i,
        {
            internal_domains.push(domains[i].clone());
            i = i + 1;
        }
        proof {
            assert(internal_domains@.map_values(|d: String| d@) =~= domains@.map_values(
                |d: String| d@,
            ));
        }
        let mut links: Vec<(String, String, String)> = Vec::new();
        let mut a: usize = 0;
        while a < aliases.len()
            invariant
                0 <= a <= aliases@.len(),
                links@.map_values(|t: (String, String, String)| (t.0@, t.1@, t.2@)) == alias_links(
                    aliases@.take(a as int),
                    contents@,
                ),
            decreases aliases@.len() - a,
        {
            proof {
                assert(aliases@.take(a + 1).drop_last() =~= aliases@.take(a as int));
            }
            let alias = &aliases[a];
            match last_content_index(contents, alias.content_id.as_str()) {
                Some(k) => {
                    let path = str_chars(alias.alias_path.as_str());
                    let key = normalize_internal_path(path.as_slice());
                    let shown = display_internal_href(path.as_slice());
                    links.push(
                        (
                            string_from_chars(key.as_slice()),
                            contents[k].title.clone(),
                            string_from_chars(shown.as_slice()),
                        ),
                    );
                    proof {
                        assert(links@.map_values(|t: (String, String, String)| (t.0@, t.1@, t.2@))
                            =~= alias_links(aliases@.take(a + 1), contents@));
                    }
                },
                None => {},
            }
            a = a + 1;
        }
        proof {
            assert(aliases@.take(a as int) =~= aliases@);
        }
        let ghost from_aliases = alias_links(aliases@, contents@);
        let mut c: usize = 0;
        while c < contents.len()
            invariant
                0 <= c <= contents@.len(),
                links@.map_values(|t: (String, String, String)| (t.0@, t.1@, t.2@)) == from_aliases
                    + contents@.take(c as int).map_values(|x: ContentItem| content_link(x)),
            decreases contents@.len() - c,
        {
            let mut route: Vec<char> = vec!['/'];
            let primary = primary_route_chars(&contents[c]);
            push_all(&mut route, trim_chars(primary.as_slice(), &CharPat::One('/')).as_slice());
            let key = normalize_internal_path(route.as_slice());
            let shown = display_internal_href(route.as_slice());
            let ghost old_links = links@;
            links.push(
                (
                    string_from_chars(key.as_slice()),
                    contents[c].title.clone(),
                    string_from_chars(shown.as_slice()),
                ),
            );
            proof {
                assert(route@ == content_route(contents@[c as int]));
                assert(contents@.take(c + 1).map_values(|x: ContentItem| content_link(x))
                    =~= contents@.take(c as int).map_values(|x: ContentItem| content_link(x)).push(
                    content_link(contents@[c as int]),
                ));
                assert(links@.map_values(|t: (String, String, String)| (t.0@, t.1@, t.2@))
                    =~= old_links.map_values(|t: (String, String, String)| (t.0@, t.1@, t.2@)).push(
                    content_link(contents@[c as int]),
                ));
            }
            c = c + 1;
        }
        proof {
            assert(contents@.take(c as int) =~= contents@);
        }
        let mut matches: Vec<(String, AssetReference)> = Vec::new();
        let mut v: usize = 0;
        while v < variants.len()
            invariant
                0 <= v <= variants@.len(),
                matches@.map_values(|m: (String, AssetReference)| (m.0@, m.1@)) == variant_matches(
                    variants@.take(v as int),
                    assets@,
                ),
            decreases variants@.len() - v,
        {
            proof {
                assert(variants@.take(v + 1).drop_last() =~= variants@.take(v as int));
            }
            let variant = &variants[v];
            match last_asset_index(assets, variant.asset_id.as_str()) {
                Some(k) => {
                    let asset = &assets[k];
                    matches.push(
                        (
                            lower_string(variant.filename.as_str()),
                            asset_ref(&asset.id, variant.variant_kind.clone(), &asset.original_filename),
                        ),
                    );
                    proof {
                        assert(matches@.map_values(|m: (String, AssetReference)| (m.0@, m.1@))
                            =~= variant_matches(variants@.take(v + 1), assets@));
                    }
                },
                None => {},
            }
            v = v + 1;
        }
        proof {
            assert(variants@.take(v as int) =~= variants@);
        }
        let ghost from_variants = variant_matches(variants@, assets@);
        let mut n: usize = 0;
        while n < assets.len()
            invariant
                0 <= n <= assets@.len(),
                matches@.map_values(|m: (String, AssetReference)| (m.0@, m.1@)) == from_variants
                    + original_matches(assets@, n as int),
            decreases assets@.len() - n,
        {
            let mut last = true;
            let mut j: usize = n + 1;
            while j < assets.len()
                invariant
                    n < j <= assets@.len(),
                    last == (forall|l: int| n < l < j ==> #[trigger] assets@[l].id@ != assets@[n as int].id@),
                decreases assets@.len() - j,
            {
                if str_eq(assets[j].id.as_str(), assets[n].id.as_str()) {
                    last = false;
                }
                j = j + 1;
            }
            let ghost old_matches = matches@;
            proof {
                assert(last == is_last_of_id(assets@, n as int));
            }
            if last {
                let asset = &assets[n];
                matches.push(
                    (
                        lower_string(asset.storage_basename.as_str()),
                        asset_ref(&asset.id, "original".to_string(), &asset.original_filename),
                    ),
                );
                matches.push(
                    (
                        lower_string(asset.original_filename.as_str()),
                        asset_ref(&asset.id, "original".to_string(), &asset.original_filename),
                    ),
                );
            }
            proof {
                if last {
                    let a = assets@[n as int];
                    let r = (a.id@, "original"@, a.original_filename@);
                    assert(matches@.map_values(|m: (String, AssetReference)| (m.0@, m.1@))
                        =~= old_matches.map_values(|m: (String, AssetReference)| (m.0@, m.1@)).push(
                        (ascii_lower(a.storage_basename@), r),
                    ).push((ascii_lower(a.original_filename@), r)));
                }
                assert(matches@.map_values(|m: (String, AssetReference)| (m.0@, m.1@))
                    =~= from_variants + original_matches(assets@, n + 1));
            }
            n = n + 1;
        }
        ScanContext { internal_domains, link_targets: links, asset_matches: matches }
    }
}

} // verus!
