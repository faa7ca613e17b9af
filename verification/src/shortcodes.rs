//! Rendering of asset shortcodes: each `[[asset ...]]` of a document that
//! names a known asset and variant becomes the `<figure>` of that file.
use crate::content_scan::{
    figure_html, last_asset, render_candidate_of, render_asset_figure_html,
    resolve_asset_render_candidate,
};
use crate::deps::{
    byte_range_text, regex_captures, regex_captures_of, string_from_chars, uuid_canonical,
    uuid_canonical_of, CaptureGroups,
};
use crate::entities::{Asset, AssetVariant};
use crate::scanner::{group, group_text, MatchView};
use crate::strings::{push_all, str_byte_range, str_chars, str_eq, trim, trim_chars, CharPat};
use vstd::prelude::*;
use vstd::utf8::*;

verus! {

/// The pattern of an asset shortcode: id, variant, alt text and an optional title.
pub open spec fn shortcode_pattern() -> Seq<char> {
    "\\[\\[asset id=\"([^\"]+)\" variant=\"([^\"]+)\" alt=\"([^\"]*)\"(?: title=\"([^\"]*)\")?\\]\\]"@
}

fn shortcode_pattern_str() -> (r: &'static str)
    ensures
        r@ == shortcode_pattern(),
{
    "\\[\\[asset id=\"([^\"]+)\" variant=\"([^\"]+)\" alt=\"([^\"]*)\"(?: title=\"([^\"]*)\")?\\]\\]"
}

/// The variants of one asset, in order.
pub open spec fn variants_for(variants: Seq<AssetVariant>, id: Seq<char>) -> Seq<AssetVariant>
    decreases variants.len(),
{
    if variants.len() == 0 {
        Seq::empty()
    } else {
        let prev = variants_for(variants.drop_last(), id);
        if variants.last().asset_id@ == id {
            prev.push(variants.last())
        } else {
            prev
        }
    }
}

/// What one shortcode match renders to: the figure of the asset variant it
/// names, or the shortcode itself when its id does not parse or names no known
/// asset or variant.
pub open spec fn rendered_shortcode(m: MatchView, assets: Seq<Asset>, variants: Seq<AssetVariant>) -> Seq<char> {
    let whole = group_text(m, 0);
    match group(m, 1) {
        None => whole,
        Some(g) => match uuid_canonical_of(g.2) {
            None => whole,
            Some(id) => {
                let variant = match group(m, 2) {
                    Some(v) => v.2,
                    None => "original"@,
                };
                let alt = group_text(m, 3);
                let title = trim(group_text(m, 4), CharPat::Ws);
                match last_asset(assets, id) {
                    None => whole,
                    Some(asset) => match render_candidate_of(
                        asset,
                        variants_for(variants, id),
                        variant,
                    ) {
                        None => whole,
                        Some(c) => figure_html(
                            c.0,
                            c.1,
                            c.2,
                            alt,
                            if title.len() == 0 {
                                None
                            } else {
                                Some(title)
                            },
                        ),
                    },
                }
            },
        },
    }
}

/// The text of a byte span, empty when it is not one.
pub open spec fn span_text(source: Seq<char>, start: int, end: int) -> Seq<char> {
    match byte_range_text(source, start, end) {
        Some(t) => t,
        None => Seq::empty(),
    }
}

/// The output and position after replacing the first `n` matches: the text
/// between matches is kept, each match is replaced by what it renders to.
pub open spec fn expand_prefix(
    source: Seq<char>,
    all: Seq<MatchView>,
    n: int,
    assets: Seq<Asset>,
    variants: Seq<AssetVariant>,
) -> (Seq<char>, usize)
    decreases n,
{
    if n <= 0 {
        (Seq::empty(), 0)
    } else {
        let (out, pos) = expand_prefix(source, all, n - 1, assets, variants);
        let m = all[n - 1];
        match group(m, 0) {
            None => (out, pos),
            Some(full) => (
                out + span_text(source, pos as int, full.0 as int) + rendered_shortcode(
                    m,
                    assets,
                    variants,
                ),
                full.1,
            ),
        }
    }
}

/// A document with each shortcode match replaced, as `Regex::replace_all` does.
pub open spec fn expanded_with(
    source: Seq<char>,
    all: Seq<MatchView>,
    assets: Seq<Asset>,
    variants: Seq<AssetVariant>,
) -> Seq<char> {
    let (out, pos) = expand_prefix(source, all, all.len() as int, assets, variants);
    out + span_text(source, pos as int, encode_utf8(source).len() as int)
}

/// A document with its asset shortcodes rendered.
pub open spec fn expanded(source: Seq<char>, assets: Seq<Asset>, variants: Seq<AssetVariant>) -> Seq<
    char,
> {
    match regex_captures_of(shortcode_pattern(), source) {
        Some(all) => expanded_with(source, all, assets, variants),
        None => source,
    }
}

/// The identifiers that the shortcodes of a document name, each once, in order.
pub open spec fn ids_in(all: Seq<MatchView>) -> Seq<Seq<char>>
    decreases all.len(),
{
    if all.len() == 0 {
        Seq::empty()
    } else {
        let prev = ids_in(all.drop_last());
        match group(all.last(), 1) {
            Some(g) => match uuid_canonical_of(g.2) {
                Some(id) => if prev.contains(id) {
                    prev
                } else {
                    prev.push(id)
                },
                None => prev,
            },
            None => prev,
        }
    }
}

fn variants_of(variants: &[AssetVariant], id: &str) -> (r: Vec<AssetVariant>)
    ensures
        r@ == variants_for(variants@, id@),
{
    let mut out: Vec<AssetVariant> = Vec::new();
    let mut i: usize = 0;
    while i < variants.len()
        invariant
            0 <= i <= variants@.len(),
            out@ == variants_for(variants@.take(i as int), id@),
        decreases variants@.len() - i,
    {
        proof {
            assert(variants@.take(i + 1).drop_last() =~= variants@.take(i as int));
        }
        if str_eq(variants[i].asset_id.as_str(), id) {
            let v = &variants[i];
            out.push(
                AssetVariant {
                    asset_id: v.asset_id.clone(),
                    variant_kind: v.variant_kind.clone(),
                    filename: v.filename.clone(),
                    width: v.width,
                    height: v.height,
                },
            );
        }
        i = i + 1;
    }
    proof {
        assert(variants@.take(i as int) =~= variants@);
    }
    out
}

fn last_asset_at(assets: &[Asset], id: &str) -> (r: Option<usize>)
    ensures
        match r {
            Some(k) => k < assets@.len() && last_asset(assets@, id@) == Some(assets@[k as int]),
            None => last_asset(assets@, id@) is None,
        },
{
    let mut found: Option<usize> = None;
    let mut i: usize = 0;
    while i < assets.len()
        invariant
            0 <= i <= assets@.len(),
            match found {
                Some(k) => k < i && last_asset(assets@.take(i as int), id@) == Some(
                    assets@[k as int],
                ),
                None => last_asset(assets@.take(i as int), id@) is None,
            },
        decreases assets@.len() - i,
    {
        proof {
            assert(assets@.take(i + 1).drop_last() =~= assets@.take(i as int));
        }
        if str_eq(assets[i].id.as_str(), id) {
            found = Some(i);
        }
        i = i + 1;
    }
    proof {
        assert(assets@.take(i as int) =~= assets@);
    }
    found
}

fn group_string(m: &CaptureGroups, g: usize) -> (r: Option<String>)
    ensures
        match r {
            Some(t) => group(m.deep_view(), g as int) matches Some(x) && x.2 == t@,
            None => group(m.deep_view(), g as int) is None,
        },
{
    if g < m.len() {
        match &m[g] {
            Some(x) => Some(x.2.clone()),
            None => None,
        }
    } else {
        None
    }
}

/// What one shortcode match renders to, given the site's assets and variants.
pub fn render_shortcode(m: &CaptureGroups, assets: &[Asset], variants: &[AssetVariant]) -> (r: String)
    ensures
        r@ == rendered_shortcode(m.deep_view(), assets@, variants@),
{
    let whole = match group_string(m, 0) {
        Some(t) => t,
        None => String::new(),
    };
    let raw_id = match group_string(m, 1) {
        Some(t) => t,
        None => return whole,
    };
    let id = match uuid_canonical(raw_id.as_str()) {
        Some(id) => id,
        None => return whole,
    };
    let variant = match group_string(m, 2) {
        Some(v) => v,
        None => string_from_chars(str_chars("original").as_slice()),
    };
    let alt = match group_string(m, 3) {
        Some(a) => a,
        None => String::new(),
    };
    let title_raw = match group_string(m, 4) {
        Some(t) => str_chars(t.as_str()),
        None => Vec::new(),
    };
    let title = trim_chars(title_raw.as_slice(), &CharPat::Ws);
    let k = match last_asset_at(assets, id.as_str()) {
        Some(k) => k,
        None => return whole,
    };
    let own = variants_of(variants, id.as_str());
    let candidate = match resolve_asset_render_candidate(&assets[k], own.as_slice(), variant.as_str()) {
        Some(c) => c,
        None => return whole,
    };
    let t = string_from_chars(title.as_slice());
    if title.len() == 0 {
        render_asset_figure_html(&candidate, alt.as_str(), None)
    } else {
        render_asset_figure_html(&candidate, alt.as_str(), Some(t.as_str()))
    }
}

/// A document with each shortcode match (`all`, as `Regex::captures_iter`
/// yields them) replaced by what it renders to.
pub fn expand_with_matches(
    source: &str,
    all: &[CaptureGroups],
    assets: &[Asset],
    variants: &[AssetVariant],
) -> (r: String)
    ensures
        r@ == expanded_with(source@, all.deep_view(), assets@, variants@),
{
    let ghost ms = all.deep_view();
    let mut out: Vec<char> = Vec::new();
    let mut pos: usize = 0;
    let mut i: usize = 0;
    while i < all.len()
        invariant
            0 <= i <= all@.len(),
            ms == all.deep_view(),
            (out@, pos) == expand_prefix(source@, ms, i as int, assets@, variants@),
        decreases all@.len() - i,
    {
        let m = &all[i];
        proof {
            assert(ms[i as int] == m.deep_view());
        }
        match group_string(m, 0) {
            None => {},
            Some(_) => {
                let (start, end) = match &m[0] {
                    Some(x) => (x.0, x.1),
                    None => (0, 0),
                };
                let gap = match str_byte_range(source, pos, start) {
                    Some(t) => t,
                    None => String::new(),
                };
                push_all(&mut out, str_chars(gap.as_str()).as_slice());
                let rendered = render_shortcode(m, assets, variants);
                push_all(&mut out, str_chars(rendered.as_str()).as_slice());
                pos = end;
            },
        }
        i = i + 1;
    }
    let n = source.as_bytes().len();
    let tail = match str_byte_range(source, pos, n) {
        Some(t) => t,
        None => String::new(),
    };
    push_all(&mut out, str_chars(tail.as_str()).as_slice());
    string_from_chars(out.as_slice())
}

/// A document with its asset shortcodes rendered as figures, given the
/// site's assets and their variants.
pub fn expand_asset_shortcodes(source: &str, assets: &[Asset], variants: &[AssetVariant]) -> (r: String)
    ensures
        r@ == expanded(source@, assets@, variants@),
{
    match regex_captures(shortcode_pattern_str(), source) {
        Some(all) => expand_with_matches(source, all.as_slice(), assets, variants),
        None => string_from_chars(str_chars(source).as_slice()),
    }
}

/// The identifiers (in canonical form) of the assets that the shortcodes of a
/// document name, each once.
pub fn shortcode_asset_ids(source: &str) -> (r: Vec<String>)
    ensures
        r@.map_values(|s: String| s@) == match regex_captures_of(shortcode_pattern(), source@) {
            Some(all) => ids_in(all),
            None => Seq::empty(),
        },
{
    let all = match regex_captures(shortcode_pattern_str(), source) {
        Some(all) => all,
        None => {
            let r: Vec<String> = Vec::new();
            proof {
                assert(r@.map_values(|s: String| s@) =~= Seq::<Seq<char>>::empty());
            }
            return r;
        },
    };
    let ghost ms = all.deep_view();
    let mut ids: Vec<String> = Vec::new();
    let mut i: usize = 0;
    proof {
        assert(ms.take(0) =~= Seq::<MatchView>::empty());
        assert(ids@.map_values(|s: String| s@) =~= Seq::<Seq<char>>::empty());
    }
    while i < all.len()
        invariant
            0 <= i <= all@.len(),
            ms == all.deep_view(),
            ids@.map_values(|s: String| s@) == ids_in(ms.take(i as int)),
        decreases all@.len() - i,
    {
        let m = &all[i];
        proof {
            assert(ms[i as int] == m.deep_view());
            assert(ms.take(i + 1).drop_last() =~= ms.take(i as int));
            assert(ms.take(i + 1).last() == m.deep_view());
        }
        match group_string(m, 1) {
            Some(raw) => match uuid_canonical(raw.as_str()) {
                Some(id) => {
                    let ghost prev = ids@.map_values(|s: String| s@);
                    let mut seen = false;
                    let mut j: usize = 0;
                    while j < ids.len()
                        invariant
                            0 <= j <= ids@.len(),
                            prev == ids@.map_values(|s: String| s@),
                            seen == exists|k: int| 0 <= k < j && prev[k] == id@,
                        decreases ids@.len() - j,
                    {
                        proof {
                            assert(prev[j as int] == ids@[j as int]@);
                        }
                        if str_eq(ids[j].as_str(), id.as_str()) {
                            seen = true;
                        }
                        j = j + 1;
                    }
                    proof {
                        if prev.contains(id@) {
                            let k = choose|k: int| 0 <= k < prev.len() && prev[k] == id@;
                            assert(0 <= k < j && prev[k] == id@);
                        }
                    }
                    if !seen {
                        ids.push(id);
                        proof {
                            assert(ids@.map_values(|s: String| s@) =~= prev.push(id@));
                        }
                    }
                },
                None => {},
            },
            None => {},
        }
        i = i + 1;
    }
    proof {
        assert(ms.take(i as int) =~= ms);
    }
    ids
}

} // verus!
