//! The content scanner: the findings that each pattern yields on a document,
//! in the order the scans run, with the spans that earlier findings claim.
use crate::content_scan::{
    asset_match_of, link_target_of, opt_text, shortcode_chars, shortcode_of, AssetRefView,
    AssetReference, ScanContext, ScanContextView,
};
use crate::deps::{
    byte_range_text, regex_captures, regex_captures_of,
    spans_of_text, string_from_chars, CaptureGroups,
};
use crate::entities::ContentItem;
use crate::links::{
    clip_snippet, escape_markdown_label, html_entities_decoded, html_entity_decode, inside_html_tag,
    inside_tag, issue_id, issue_id_of, markdown_label_escaped, overlaps, overlaps_any, snippet_of,
};
use crate::strings::{
    chars_of, find_char, find_first, lemma_find_first_facts, push_all, str_chars, str_eq, trim,
    trim_chars, CharPat,
};
use vstd::prelude::*;
use vstd::utf8::*;

verus! {

broadcast use vstd::utf8::encode_utf8_valid_utf8;

/// What a finding proposes to do.
#[derive(Debug)]
pub enum ScanAction {
    ReplaceText { replacement: String },
    ReplaceAsset {
        alt: String,
        title: Option<String>,
        suggested_asset: Option<AssetReference>,
        remote_url: Option<String>,
    },
    ReviewOnly,
}

/// A proposed action, over character sequences.
#[verifier::ext_equal]
pub enum ActionView {
    ReplaceText(Seq<char>),
    /// alt text, title, suggested asset, remote URL
    ReplaceAsset(Seq<char>, Option<Seq<char>>, Option<AssetRefView>, Option<Seq<char>>),
    ReviewOnly,
}

pub open spec fn opt_ref(o: Option<AssetReference>) -> Option<AssetRefView> {
    match o {
        Some(a) => Some(a@),
        None => None,
    }
}

impl View for ScanAction {
    type V = ActionView;

    open spec fn view(&self) -> ActionView {
        match self {
            ScanAction::ReplaceText { replacement } => ActionView::ReplaceText(replacement@),
            ScanAction::ReplaceAsset { alt, title, suggested_asset, remote_url } => {
                ActionView::ReplaceAsset(
                    alt@,
                    opt_text(*title),
                    opt_ref(*suggested_asset),
                    opt_text(*remote_url),
                )
            },
            ScanAction::ReviewOnly => ActionView::ReviewOnly,
        }
    }
}

/// One finding of a scan: a span of the document, what it holds and what
/// could replace it.
#[derive(Debug)]
pub struct ScanIssue {
    pub issue_id: String,
    pub kind: String,
    pub label: String,
    pub start: usize,
    pub end: usize,
    pub snippet: String,
    pub current_value: String,
    pub proposed_value: Option<String>,
    pub action: ScanAction,
}

/// A finding, over character sequences.
#[verifier::ext_equal]
pub struct IssueView {
    pub issue_id: Seq<char>,
    pub kind: Seq<char>,
    pub label: Seq<char>,
    pub start: usize,
    pub end: usize,
    pub snippet: Seq<char>,
    pub current_value: Seq<char>,
    pub proposed_value: Option<Seq<char>>,
    pub action: ActionView,
}

impl View for ScanIssue {
    type V = IssueView;

    open spec fn view(&self) -> IssueView {
        IssueView {
            issue_id: self.issue_id@,
            kind: self.kind@,
            label: self.label@,
            start: self.start,
            end: self.end,
            snippet: self.snippet@,
            current_value: self.current_value@,
            proposed_value: opt_text(self.proposed_value),
            action: self.action@,
        }
    }
}

pub open spec fn opt_issue(o: Option<ScanIssue>) -> Option<IssueView> {
    match o {
        Some(i) => Some(i@),
        None => None,
    }
}

pub open spec fn issue_views(s: Seq<ScanIssue>) -> Seq<IssueView> {
    s.map_values(|i: ScanIssue| i@)
}

/// The report of a scan: the content scanned and its findings by position.
pub struct ContentScanReport {
    pub content: ContentItem,
    pub issues: Vec<ScanIssue>,
}

/// The scans, in the order they run.
#[derive(Clone, Copy, Debug, PartialEq, Eq, Structural)]
pub enum ScanStep {
    Markdown,
    HtmlLink,
    HtmlImage,
    Paragraph,
    Strong,
    Bold,
    Italic,
    Style,
    Class,
    Dangerous,
    Complex,
    BareUrl,
}

/// The regular expression of each scan.
pub open spec fn step_pattern(step: ScanStep) -> Seq<char> {
    match step {
        ScanStep::Markdown => "(?m)(!?)\\[([^\\]\\n]+)\\]\\(([^)\\s]+)\\)"@,
        ScanStep::HtmlLink => "(?is)<a\\b[^>]*href\\s*=\\s*(?:[\"'])([^\"']+)(?:[\"'])[^>]*>(.*?)</a>"@,
        ScanStep::HtmlImage => "(?is)<img\\b([^>]*)/?>"@,
        ScanStep::Paragraph => "(?is)<p\\b[^>]*>(.*?)</p>"@,
        ScanStep::Strong => "(?is)<strong\\b[^>]*>(.*?)</strong>"@,
        ScanStep::Bold => "(?is)<b\\b[^>]*>(.*?)</b>"@,
        ScanStep::Italic => "(?is)<i\\b[^>]*>(.*?)</i>"@,
        ScanStep::Style => "(?is)\\bstyle\\s*=\\s*(?:\"[^\"]*\"|'[^']*')"@,
        ScanStep::Class => "(?is)\\bclass\\s*=\\s*(?:\"[^\"]+\"|'[^']+')"@,
        ScanStep::Dangerous => "(?is)<\\s*(script|iframe|object|embed|form)\\b[^>]*>"@,
        ScanStep::Complex => "(?is)<\\s*(div|section|table|ul|ol|li|blockquote|figure|figcaption)\\b[^>]*>"@,
        ScanStep::BareUrl => "https?://[^\\s<>\\\"]+"@,
    }
}

impl ScanStep {
    pub fn pattern(&self) -> (r: &'static str)
        ensures
            r@ == step_pattern(*self),
    {
        match self {
            ScanStep::Markdown => "(?m)(!?)\\[([^\\]\\n]+)\\]\\(([^)\\s]+)\\)",
            ScanStep::HtmlLink => "(?is)<a\\b[^>]*href\\s*=\\s*(?:[\"'])([^\"']+)(?:[\"'])[^>]*>(.*?)</a>",
            ScanStep::HtmlImage => "(?is)<img\\b([^>]*)/?>",
            ScanStep::Paragraph => "(?is)<p\\b[^>]*>(.*?)</p>",
            ScanStep::Strong => "(?is)<strong\\b[^>]*>(.*?)</strong>",
            ScanStep::Bold => "(?is)<b\\b[^>]*>(.*?)</b>",
            ScanStep::Italic => "(?is)<i\\b[^>]*>(.*?)</i>",
            ScanStep::Style => "(?is)\\bstyle\\s*=\\s*(?:\"[^\"]*\"|'[^']*')",
            ScanStep::Class => "(?is)\\bclass\\s*=\\s*(?:\"[^\"]+\"|'[^']+')",
            ScanStep::Dangerous => "(?is)<\\s*(script|iframe|object|embed|form)\\b[^>]*>",
            ScanStep::Complex => "(?is)<\\s*(div|section|table|ul|ol|li|blockquote|figure|figcaption)\\b[^>]*>",
            ScanStep::BareUrl => "https?://[^\\s<>\\\"]+",
        }
    }
}

/// The kind and label of the findings of a review-only scan.
pub open spec fn review_names(step: ScanStep) -> (Seq<char>, Seq<char>) {
    match step {
        ScanStep::Style => ("inline_style"@, "Inline style"@),
        ScanStep::Class => ("inline_class"@, "Class attribute"@),
        ScanStep::Dangerous => ("dangerous_html"@, "Dangerous HTML"@),
        _ => ("complex_html"@, "Complex HTML"@),
    }
}

/// The kind and label of the findings of an inline-tag scan.
pub open spec fn tag_names(step: ScanStep) -> (Seq<char>, Seq<char>) {
    match step {
        ScanStep::Paragraph => ("paragraph"@, "<p> tag"@),
        ScanStep::Strong => ("strong"@, "<strong> tag"@),
        ScanStep::Bold => ("bold"@, "<b> tag"@),
        _ => ("italic"@, "<i> tag"@),
    }
}

/// The Markdown that replaces an inline tag around the trimmed text `inner`.
pub open spec fn tag_replacement(step: ScanStep, inner: Seq<char>) -> Seq<char> {
    match step {
        ScanStep::Paragraph => inner + "\n\n"@,
        ScanStep::Italic => "*"@ + inner + "*"@,
        _ => "**"@ + inner + "**"@,
    }
}

pub open spec fn is_review(step: ScanStep) -> bool {
    step == ScanStep::Style || step == ScanStep::Class || step == ScanStep::Dangerous || step
        == ScanStep::Complex
}

pub open spec fn is_tag(step: ScanStep) -> bool {
    step == ScanStep::Paragraph || step == ScanStep::Strong || step == ScanStep::Bold || step
        == ScanStep::Italic
}

/// Whether the findings of a scan claim their spans for the scans after it.
pub open spec fn step_marks(step: ScanStep) -> bool {
    !is_review(step) && step != ScanStep::BareUrl
}

/// One match: per group, its span and text when it took part.
pub type MatchView = Seq<Option<(usize, usize, Seq<char>)>>;

pub open spec fn group(m: MatchView, g: int) -> Option<(usize, usize, Seq<char>)> {
    if 0 <= g < m.len() {
        m[g]
    } else {
        None
    }
}

/// The text of a group, empty when it did not take part.
pub open spec fn group_text(m: MatchView, g: int) -> Seq<char> {
    match group(m, g) {
        Some(x) => x.2,
        None => Seq::empty(),
    }
}

/// A finding with its identifier and snippet filled in from its span.
pub open spec fn issue_at(
    source: Seq<char>,
    kind: Seq<char>,
    label: Seq<char>,
    start: usize,
    end: usize,
    current: Seq<char>,
    proposed: Option<Seq<char>>,
    action: ActionView,
) -> IssueView {
    IssueView {
        issue_id: issue_id_of(kind, start, end),
        kind,
        label,
        start,
        end,
        snippet: snippet_of(source, start, end),
        current_value: current,
        proposed_value: proposed,
        action,
    }
}

/// The shortcode proposed for an image that resolved to an asset.
pub open spec fn image_proposal(
    res: Result<AssetRefView, Option<Seq<char>>>,
    alt: Seq<char>,
    title: Option<Seq<char>>,
) -> Option<Seq<char>> {
    match res {
        Ok(a) => Some(shortcode_of(a.0, a.1, alt, title)),
        Err(_) => None,
    }
}

/// The action for an image: the asset it resolved to, or the remote URL.
pub open spec fn image_action(
    res: Result<AssetRefView, Option<Seq<char>>>,
    alt: Seq<char>,
    title: Option<Seq<char>>,
) -> ActionView {
    match res {
        Ok(a) => ActionView::ReplaceAsset(alt, title, Some(a), None),
        Err(u) => ActionView::ReplaceAsset(alt, title, None, u),
    }
}

/// A Markdown link `[label](href)`.
pub open spec fn md_link(label: Seq<char>, href: Seq<char>) -> Seq<char> {
    "["@ + markdown_label_escaped(label) + "]("@ + href + ")"@
}

/// The finding of a Markdown link or image match.
pub open spec fn markdown_issue(
    source: Seq<char>,
    ctx: ScanContextView,
    m: MatchView,
    full: (usize, usize, Seq<char>),
) -> Option<IssueView> {
    let label = trim(group_text(m, 2), CharPat::Ws);
    let href = trim(group_text(m, 3), CharPat::Ws);
    if group_text(m, 1) == "!"@ {
        match asset_match_of(ctx, href) {
            None => None,
            Some(res) => Some(
                issue_at(
                    source,
                    "markdown_image"@,
                    "Markdown image"@,
                    full.0,
                    full.1,
                    full.2,
                    image_proposal(res, label, None),
                    image_action(res, label, None),
                ),
            ),
        }
    } else {
        match link_target_of(ctx, href) {
            None => None,
            Some((title, shown)) => Some(
                issue_at(
                    source,
                    "markdown_link"@,
                    "Markdown internal link"@,
                    full.0,
                    full.1,
                    full.2,
                    Some(md_link(label, shown)),
                    ActionView::ReplaceText(md_link(label, shown)),
                ),
            ),
        }
    }
}

/// The finding of an HTML anchor match, unless its text holds markup.
pub open spec fn html_link_issue(
    source: Seq<char>,
    ctx: ScanContextView,
    m: MatchView,
    full: (usize, usize, Seq<char>),
) -> Option<IssueView> {
    let href = trim(group_text(m, 1), CharPat::Ws);
    let text = trim(group_text(m, 2), CharPat::Ws);
    if find_first(text, '<') is Some {
        None
    } else {
        let target = match link_target_of(ctx, href) {
            Some((_, shown)) => shown,
            None => href,
        };
        Some(
            issue_at(
                source,
                "html_link"@,
                "HTML link"@,
                full.0,
                full.1,
                full.2,
                Some(md_link(text, target)),
                ActionView::ReplaceText(md_link(text, target)),
            ),
        )
    }
}

/// Whether regex syntax gives a character a meaning of its own, so that a
/// pattern must escape it to match it literally.
pub open spec fn is_regex_meta(c: char) -> bool {
    c == '\\' || c == '.' || c == '+' || c == '*' || c == '?' || c == '(' || c == ')' || c == '|'
        || c == '[' || c == ']' || c == '{' || c == '}' || c == '^' || c == '$' || c == '#' || c
        == '&' || c == '-' || c == '~'
}

/// A text with a backslash before each regex meta character.
pub open spec fn regex_escaped(s: Seq<char>) -> Seq<char>
    decreases s.len(),
{
    if s.len() == 0 {
        Seq::empty()
    } else {
        let prev = regex_escaped(s.drop_last());
        if is_regex_meta(s.last()) {
            prev.push('\\').push(s.last())
        } else {
            prev.push(s.last())
        }
    }
}

fn regex_meta(c: char) -> (b: bool)
    ensures
        b == is_regex_meta(c),
{
    c == '\\' || c == '.' || c == '+' || c == '*' || c == '?' || c == '(' || c == ')' || c == '|'
        || c == '[' || c == ']' || c == '{' || c == '}' || c == '^' || c == '$' || c == '#' || c
        == '&' || c == '-' || c == '~'
}

/// A literal text as a regex pattern that matches exactly it: each meta
/// character gets a backslash before it, as `regex::escape` writes it.
pub fn regex_escape(s: &str) -> (r: String)
    ensures
        r@ == regex_escaped(s@),
{
    let chars = str_chars(s);
    let mut out: Vec<char> = Vec::new();
    let mut i: usize = 0;
    while i < chars.len()
        invariant
            0 <= i <= chars@.len(),
            out@ == regex_escaped(chars@.take(i as int)),
        decreases chars@.len() - i,
    {
        let c = chars[i];
        proof {
            assert(chars@.take(i + 1).drop_last() =~= chars@.take(i as int));
        }
        if regex_meta(c) {
            out.push('\\');
        }
        out.push(c);
        i = i + 1;
    }
    proof {
        assert(chars@.take(i as int) =~= chars@);
    }
    string_from_chars(out.as_slice())
}

/// The pattern that finds attribute `name` in the attributes of a tag.
pub open spec fn attribute_pattern(name: Seq<char>) -> Seq<char> {
    "(?is)\\b"@ + regex_escaped(name) + "\\s*=\\s*(?:\"([^\"]*)\"|'([^']*)')"@
}

/// The entity-decoded value of an attribute in the first match of its pattern.
pub open spec fn attribute_in(all: Seq<MatchView>) -> Option<Seq<char>> {
    if all.len() == 0 {
        None
    } else {
        match group(all[0], 1) {
            Some(g) => Some(html_entities_decoded(g.2)),
            None => match group(all[0], 2) {
                Some(g) => Some(html_entities_decoded(g.2)),
                None => None,
            },
        }
    }
}

/// The value of attribute `name` in the attribute text of a tag.
pub open spec fn attribute_of(attributes: Seq<char>, name: Seq<char>) -> Option<Seq<char>> {
    match regex_captures_of(attribute_pattern(name), attributes) {
        None => None,
        Some(all) => attribute_in(all),
    }
}

/// The finding of an HTML image match whose `src` resolves.
pub open spec fn html_image_issue(
    source: Seq<char>,
    ctx: ScanContextView,
    m: MatchView,
    full: (usize, usize, Seq<char>),
) -> Option<IssueView> {
    let attributes = group_text(m, 1);
    match attribute_of(attributes, "src"@) {
        None => None,
        Some(src) => {
            let alt = match attribute_of(attributes, "alt"@) {
                Some(a) => a,
                None => Seq::empty(),
            };
            let title = attribute_of(attributes, "title"@);
            match asset_match_of(ctx, src) {
                None => None,
                Some(res) => Some(
                    issue_at(
                        source,
                        "html_image"@,
                        "HTML image"@,
                        full.0,
                        full.1,
                        full.2,
                        image_proposal(res, alt, title),
                        image_action(res, alt, title),
                    ),
                ),
            }
        },
    }
}

/// The finding of an inline tag whose content holds no markup.
pub open spec fn tag_issue(
    source: Seq<char>,
    step: ScanStep,
    m: MatchView,
    full: (usize, usize, Seq<char>),
) -> Option<IssueView> {
    let inner = group_text(m, 1);
    if find_first(inner, '<') is Some {
        None
    } else {
        let rep = tag_replacement(step, trim(inner, CharPat::Ws));
        Some(
            issue_at(
                source,
                tag_names(step).0,
                tag_names(step).1,
                full.0,
                full.1,
                full.2,
                Some(rep),
                ActionView::ReplaceText(rep),
            ),
        )
    }
}

/// An `<i>` element whose text holds no markup becomes Markdown emphasis: one
/// asterisk on each side of its trimmed text, proposed and applied as the
/// replacement of the whole element, under the kind `italic`. `<b>` and
/// `<strong>` around the same text become strong emphasis, with two asterisks
/// on each side, so the two never propose the same text; `<p>` becomes its
/// trimmed text followed by a blank line.
pub proof fn italic_becomes_emphasis(
    source: Seq<char>,
    m: MatchView,
    full: (usize, usize, Seq<char>),
)
    requires
        forall|i: int| 0 <= i < group_text(m, 1).len() ==> group_text(m, 1)[i] != '<',
    ensures
        ({
            let t = trim(group_text(m, 1), CharPat::Ws);
            let emphasis = seq!['*'] + t + seq!['*'];
            let strong = seq!['*', '*'] + t + seq!['*', '*'];
            &&& tag_issue(source, ScanStep::Italic, m, full) matches Some(i) && i.kind == "italic"@
                && i.start == full.0 && i.end == full.1 && i.current_value == full.2
                && i.proposed_value == Some(emphasis) && i.action == ActionView::ReplaceText(
                emphasis,
            )
            &&& tag_issue(source, ScanStep::Bold, m, full) matches Some(b) && b.kind == "bold"@
                && b.proposed_value == Some(strong) && b.action == ActionView::ReplaceText(strong)
            &&& tag_issue(source, ScanStep::Strong, m, full) matches Some(g) && g.kind
                == "strong"@ && g.proposed_value == Some(strong) && g.action
                == ActionView::ReplaceText(strong)
            &&& tag_issue(source, ScanStep::Paragraph, m, full) matches Some(p) && p.kind
                == "paragraph"@ && p.proposed_value == Some(t + seq!['\n', '\n'])
                && p.action == ActionView::ReplaceText(t + seq!['\n', '\n'])
            &&& emphasis != strong
        }),
{
    let inner = group_text(m, 1);
    lemma_find_first_facts(inner, '<');
    if find_first(inner, '<') is Some {
        let k = find_first(inner, '<')->0;
        assert(inner[k as int] == '<');
    }
    let t = trim(inner, CharPat::Ws);
    reveal_strlit("*");
    reveal_strlit("**");
    assert("*"@ + t + "*"@ =~= seq!['*'] + t + seq!['*']);
    assert("**"@ + t + "**"@ =~= seq!['*', '*'] + t + seq!['*', '*']);
    reveal_strlit("\n\n");
    assert(t + "\n\n"@ =~= t + seq!['\n', '\n']);
    assert((seq!['*'] + t + seq!['*']).len() != (seq!['*', '*'] + t + seq!['*', '*']).len());
}

pub open spec fn is_url_trailer(c: char) -> bool {
    c == ',' || c == '.' || c == ';' || c == ')'
}

/// A URL without the punctuation that trails it in prose.
pub open spec fn url_trimmed(s: Seq<char>) -> Seq<char>
    decreases s.len(),
{
    if s.len() > 0 && is_url_trailer(s.last()) {
        url_trimmed(s.drop_last())
    } else {
        s
    }
}

/// The finding of a plain URL outside any tag.
pub open spec fn bare_url_issue(
    source: Seq<char>,
    ctx: ScanContextView,
    full: (usize, usize, Seq<char>),
) -> Option<IssueView> {
    if inside_tag(source, full.0) {
        None
    } else {
        let url = url_trimmed(full.2);
        let end = (full.0 + encode_utf8(url).len()) as usize;
        let rep = match link_target_of(ctx, url) {
            Some((title, shown)) => md_link(title, shown),
            None => "<"@ + url + ">"@,
        };
        Some(
            issue_at(
                source,
                "bare_url"@,
                "Plain URL"@,
                full.0,
                end,
                url,
                Some(rep),
                ActionView::ReplaceText(rep),
            ),
        )
    }
}

/// The finding that one match of a scan yields, given the spans claimed so far.
pub open spec fn step_issue(
    source: Seq<char>,
    ctx: ScanContextView,
    step: ScanStep,
    m: MatchView,
    occupied: Seq<(usize, usize)>,
) -> Option<IssueView> {
    match group(m, 0) {
        None => None,
        Some(full) => if overlaps_any(occupied, full.0, full.1) {
            None
        } else if step == ScanStep::Markdown {
            markdown_issue(source, ctx, m, full)
        } else if step == ScanStep::HtmlLink {
            html_link_issue(source, ctx, m, full)
        } else if step == ScanStep::HtmlImage {
            html_image_issue(source, ctx, m, full)
        } else if step == ScanStep::BareUrl {
            bare_url_issue(source, ctx, full)
        } else if is_review(step) {
            Some(
                issue_at(
                    source,
                    review_names(step).0,
                    review_names(step).1,
                    full.0,
                    full.1,
                    full.2,
                    None,
                    ActionView::ReviewOnly,
                ),
            )
        } else {
            tag_issue(source, step, m, full)
        },
    }
}

/// The findings and claimed spans after the matches of one scan, in order.
pub open spec fn scan_matches(
    source: Seq<char>,
    ctx: ScanContextView,
    step: ScanStep,
    ms: Seq<MatchView>,
    issues: Seq<IssueView>,
    occupied: Seq<(usize, usize)>,
) -> (Seq<IssueView>, Seq<(usize, usize)>)
    decreases ms.len(),
{
    if ms.len() == 0 {
        (issues, occupied)
    } else {
        let (is, oc) = scan_matches(source, ctx, step, ms.drop_last(), issues, occupied);
        match step_issue(source, ctx, step, ms.last(), oc) {
            None => (is, oc),
            Some(i) => (
                is.push(i),
                if step_marks(step) {
                    oc.push((i.start, i.end))
                } else {
                    oc
                },
            ),
        }
    }
}

/// The matches of a scan's pattern in a document (none when it does not compile).
pub open spec fn step_matches(step: ScanStep, source: Seq<char>) -> Seq<MatchView> {
    match regex_captures_of(step_pattern(step), source) {
        Some(all) => all,
        None => Seq::empty(),
    }
}

/// The scans in the order they run.
pub open spec fn scan_order() -> Seq<ScanStep> {
    seq![
        ScanStep::Markdown,
        ScanStep::HtmlLink,
        ScanStep::HtmlImage,
        ScanStep::Paragraph,
        ScanStep::Strong,
        ScanStep::Bold,
        ScanStep::Italic,
        ScanStep::Style,
        ScanStep::Class,
        ScanStep::Dangerous,
        ScanStep::Complex,
        ScanStep::BareUrl,
    ]
}

/// The findings and claimed spans after running the first `n` scans.
pub open spec fn run_scans(source: Seq<char>, ctx: ScanContextView, n: int) -> (
    Seq<IssueView>,
    Seq<(usize, usize)>,
)
    decreases n,
{
    if n <= 0 {
        (Seq::empty(), Seq::empty())
    } else {
        let (is, oc) = run_scans(source, ctx, n - 1);
        let step = scan_order()[n - 1];
        scan_matches(source, ctx, step, step_matches(step, source), is, oc)
    }
}

/// The position at which a finding starting at `start` goes into findings
/// ordered by start, after those that start at or before it.
pub open spec fn insert_pos(s: Seq<IssueView>, start: usize) -> nat
    decreases s.len(),
{
    if s.len() == 0 {
        0
    } else if s[0].start > start {
        0
    } else {
        1 + insert_pos(s.drop_first(), start)
    }
}

/// Findings ordered by start; findings with equal starts keep their order.
pub open spec fn sort_by_start(s: Seq<IssueView>) -> Seq<IssueView>
    decreases s.len(),
{
    if s.len() == 0 {
        s
    } else {
        let t = sort_by_start(s.drop_last());
        t.insert(insert_pos(t, s.last().start) as int, s.last())
    }
}

/// All findings of a document, ordered by start.
pub open spec fn scan_findings(source: Seq<char>, ctx: ScanContextView) -> Seq<IssueView> {
    sort_by_start(run_scans(source, ctx, 12).0)
}

pub open spec fn starts_sorted(s: Seq<IssueView>) -> bool {
    forall|i: int, j: int| 0 <= i <= j < s.len() ==> #[trigger] s[i].start <= #[trigger] s[j].start
}


pub open spec fn res_view(r: Result<AssetReference, Option<String>>) -> Result<
    AssetRefView,
    Option<Seq<char>>,
> {
    match r {
        Ok(a) => Ok(a@),
        Err(u) => Err(opt_text(u)),
    }
}

pub open spec fn opt_chars(o: Option<Vec<char>>) -> Option<Seq<char>> {
    match o {
        Some(s) => Some(s@),
        None => None,
    }
}

fn owned(s: &str) -> (r: String)
    ensures
        r@ == s@,
{
    string_from_chars(str_chars(s).as_slice())
}

fn opt_string(o: &Option<Vec<char>>) -> (r: Option<String>)
    ensures
        opt_text(r) == opt_chars(*o),
{
    match o {
        Some(v) => Some(string_from_chars(v.as_slice())),
        None => None,
    }
}

fn group_at(m: &CaptureGroups, g: usize) -> (r: Option<(usize, usize, Vec<char>)>)
    ensures
        match r {
            Some(x) => group(m.deep_view(), g as int) == Some((x.0, x.1, x.2@)),
            None => group(m.deep_view(), g as int) is None,
        },
{
    if g < m.len() {
        match &m[g] {
            Some(x) => Some((x.0, x.1, str_chars(x.2.as_str()))),
            None => None,
        }
    } else {
        None
    }
}

fn group_chars(m: &CaptureGroups, g: usize) -> (r: Vec<char>)
    ensures
        r@ == group_text(m.deep_view(), g as int),
{
    match group_at(m, g) {
        Some(x) => x.2,
        None => Vec::new(),
    }
}

fn make_issue(
    source: &str,
    kind: &str,
    label: &str,
    start: usize,
    end: usize,
    current: String,
    proposed: Option<String>,
    action: ScanAction,
) -> (r: ScanIssue)
    ensures
        r@ == issue_at(source@, kind@, label@, start, end, current@, opt_text(proposed), action@),
{
    let id = issue_id(str_chars(kind).as_slice(), start, end);
    ScanIssue {
        issue_id: string_from_chars(id.as_slice()),
        kind: owned(kind),
        label: owned(label),
        start,
        end,
        snippet: clip_snippet(source, start, end),
        current_value: current,
        proposed_value: proposed,
        action,
    }
}

fn md_link_chars(label: &[char], href: &[char]) -> (r: Vec<char>)
    ensures
        r@ == md_link(label@, href@),
{
    let mut v = vec!['['];
    push_all(&mut v, escape_markdown_label(label).as_slice());
    push_all(&mut v, chars_of("](").as_slice());
    push_all(&mut v, href);
    v.push(')');
    proof {
        reveal_strlit("[");
        reveal_strlit(")");
    }
    v
}

fn image_issue(
    source: &str,
    kind: &str,
    label: &str,
    full: &(usize, usize, Vec<char>),
    res: Result<AssetReference, Option<String>>,
    alt: &[char],
    title: Option<Vec<char>>,
) -> (r: ScanIssue)
    ensures
        r@ == issue_at(
            source@,
            kind@,
            label@,
            full.0,
            full.1,
            full.2@,
            image_proposal(res_view(res), alt@, opt_chars(title)),
            image_action(res_view(res), alt@, opt_chars(title)),
        ),
{
    let current = string_from_chars(full.2.as_slice());
    match res {
        Ok(a) => {
            let sc = shortcode_chars(
                str_chars(a.asset_id.as_str()).as_slice(),
                str_chars(a.variant.as_str()).as_slice(),
                alt,
                &title,
            );
            let t = opt_string(&title);
            make_issue(
                source,
                kind,
                label,
                full.0,
                full.1,
                current,
                Some(string_from_chars(sc.as_slice())),
                ScanAction::ReplaceAsset {
                    alt: string_from_chars(alt),
                    title: t,
                    suggested_asset: Some(a),
                    remote_url: None,
                },
            )
        },
        Err(u) => {
            let t = opt_string(&title);
            make_issue(
                source,
                kind,
                label,
                full.0,
                full.1,
                current,
                None,
                ScanAction::ReplaceAsset {
                    alt: string_from_chars(alt),
                    title: t,
                    suggested_asset: None,
                    remote_url: u,
                },
            )
        },
    }
}

fn markdown_find(source: &str, ctx: &ScanContext, m: &CaptureGroups, full: &(usize, usize, Vec<char>)) -> (r: Option<ScanIssue>)
    ensures
        opt_issue(r) == markdown_issue(source@, ctx@, m.deep_view(), (full.0, full.1, full.2@)),
{
    let label = trim_chars(group_chars(m, 2).as_slice(), &CharPat::Ws);
    let href = trim_chars(group_chars(m, 3).as_slice(), &CharPat::Ws);
    let bang = group_chars(m, 1);
    if bang.len() == 1 && bang[0] == '!' {
        proof {
            reveal_strlit("!");
            assert(bang@ =~= "!"@);
        }
        match ctx.match_asset_url(href.as_slice()) {
            None => None,
            Some(res) => {
                proof {
                    assert(asset_match_of(ctx@, href@) == Some(res_view(res)));
                }
                Some(
                    image_issue(
                        source,
                        "markdown_image",
                        "Markdown image",
                        full,
                        res,
                        label.as_slice(),
                        None,
                    ),
                )
            },
        }
    } else {
        proof {
            reveal_strlit("!");
            assert(bang@ != "!"@);
        }
        match ctx.find_link_target(href.as_slice()) {
            None => None,
            Some(t) => {
                let rep = md_link_chars(label.as_slice(), t.1.as_slice());
                Some(
                    make_issue(
                        source,
                        "markdown_link",
                        "Markdown internal link",
                        full.0,
                        full.1,
                        string_from_chars(full.2.as_slice()),
                        Some(string_from_chars(rep.as_slice())),
                        ScanAction::ReplaceText { replacement: string_from_chars(rep.as_slice()) },
                    ),
                )
            },
        }
    }
}

fn html_link_find(source: &str, ctx: &ScanContext, m: &CaptureGroups, full: &(usize, usize, Vec<char>)) -> (r: Option<ScanIssue>)
    ensures
        opt_issue(r) == html_link_issue(source@, ctx@, m.deep_view(), (full.0, full.1, full.2@)),
{
    let href = trim_chars(group_chars(m, 1).as_slice(), &CharPat::Ws);
    let text = trim_chars(group_chars(m, 2).as_slice(), &CharPat::Ws);
    if find_char(text.as_slice(), '<').is_some() {
        return None;
    }
    let rep = match ctx.find_link_target(href.as_slice()) {
        Some(t) => md_link_chars(text.as_slice(), t.1.as_slice()),
        None => md_link_chars(text.as_slice(), href.as_slice()),
    };
    Some(
        make_issue(
            source,
            "html_link",
            "HTML link",
            full.0,
            full.1,
            string_from_chars(full.2.as_slice()),
            Some(string_from_chars(rep.as_slice())),
            ScanAction::ReplaceText { replacement: string_from_chars(rep.as_slice()) },
        ),
    )
}

/// The entity-decoded value that the first match of an attribute pattern gives.
pub fn attribute_from_matches(all: &[CaptureGroups]) -> (r: Option<String>)
    ensures
        opt_text(r) == attribute_in(all.deep_view()),
{
    if all.len() == 0 {
        return None;
    }
    let m = &all[0];
    proof {
        assert(all.deep_view()[0] == m.deep_view());
    }
    match group_at(m, 1) {
        Some(g) => Some(string_from_chars(html_entity_decode(g.2.as_slice()).as_slice())),
        None => match group_at(m, 2) {
            Some(g) => Some(string_from_chars(html_entity_decode(g.2.as_slice()).as_slice())),
            None => None,
        },
    }
}

/// The value of attribute `name` in the attribute text of an HTML tag, with
/// HTML entities decoded: the first `name="..."` or `name='...'`.
pub fn extract_html_attribute(attributes: &str, name: &str) -> (r: Option<String>)
    ensures
        opt_text(r) == attribute_of(attributes@, name@),
{
    let escaped = regex_escape(name);
    let mut pattern = chars_of("(?is)\\b");
    push_all(&mut pattern, str_chars(escaped.as_str()).as_slice());
    push_all(&mut pattern, chars_of("\\s*=\\s*(?:\"([^\"]*)\"|'([^']*)')").as_slice());
    let pattern = string_from_chars(pattern.as_slice());
    match regex_captures(pattern.as_str(), attributes) {
        None => None,
        Some(all) => attribute_from_matches(all.as_slice()),
    }
}

fn html_image_find(source: &str, ctx: &ScanContext, m: &CaptureGroups, full: &(usize, usize, Vec<char>)) -> (r: Option<ScanIssue>)
    ensures
        opt_issue(r) == html_image_issue(source@, ctx@, m.deep_view(), (full.0, full.1, full.2@)),
{
    let attributes = string_from_chars(group_chars(m, 1).as_slice());
    let src = match extract_html_attribute(attributes.as_str(), "src") {
        Some(s) => s,
        None => return None,
    };
    let alt = match extract_html_attribute(attributes.as_str(), "alt") {
        Some(a) => str_chars(a.as_str()),
        None => Vec::new(),
    };
    let title = match extract_html_attribute(attributes.as_str(), "title") {
        Some(t) => Some(str_chars(t.as_str())),
        None => None,
    };
    match ctx.match_asset_url(str_chars(src.as_str()).as_slice()) {
        None => None,
        Some(res) => {
            proof {
                assert(asset_match_of(ctx@, src@) == Some(res_view(res)));
            }
            Some(image_issue(source, "html_image", "HTML image", full, res, alt.as_slice(), title))
        },
    }
}

fn tag_find(source: &str, step: ScanStep, m: &CaptureGroups, full: &(usize, usize, Vec<char>)) -> (r: Option<ScanIssue>)
    requires
        is_tag(step),
    ensures
        opt_issue(r) == tag_issue(source@, step, m.deep_view(), (full.0, full.1, full.2@)),
{
    let inner = group_chars(m, 1);
    if find_char(inner.as_slice(), '<').is_some() {
        return None;
    }
    let t = trim_chars(inner.as_slice(), &CharPat::Ws);
    let mut rep: Vec<char> = Vec::new();
    let (kind, label) = match step {
        ScanStep::Paragraph => {
            push_all(&mut rep, t.as_slice());
            push_all(&mut rep, chars_of("\n\n").as_slice());
            ("paragraph", "<p> tag")
        },
        ScanStep::Strong => {
            push_all(&mut rep, chars_of("**").as_slice());
            push_all(&mut rep, t.as_slice());
            push_all(&mut rep, chars_of("**").as_slice());
            ("strong", "<strong> tag")
        },
        ScanStep::Bold => {
            push_all(&mut rep, chars_of("**").as_slice());
            push_all(&mut rep, t.as_slice());
            push_all(&mut rep, chars_of("**").as_slice());
            ("bold", "<b> tag")
        },
        _ => {
            push_all(&mut rep, chars_of("*").as_slice());
            push_all(&mut rep, t.as_slice());
            push_all(&mut rep, chars_of("*").as_slice());
            ("italic", "<i> tag")
        },
    };
    proof {
        assert(rep@ == tag_replacement(step, trim(inner@, CharPat::Ws)));
    }
    Some(
        make_issue(
            source,
            kind,
            label,
            full.0,
            full.1,
            string_from_chars(full.2.as_slice()),
            Some(string_from_chars(rep.as_slice())),
            ScanAction::ReplaceText { replacement: string_from_chars(rep.as_slice()) },
        ),
    )
}

proof fn lemma_encode_concat(a: Seq<char>, b: Seq<char>)
    ensures
        encode_utf8(a + b) == encode_utf8(a) + encode_utf8(b),
    decreases a.len(),
{
    if a.len() == 0 {
        assert(a + b =~= b);
        assert(encode_utf8(a) =~= Seq::<u8>::empty());
        assert(encode_utf8(a) + encode_utf8(b) =~= encode_utf8(b));
    } else {
        lemma_encode_concat(a.drop_first(), b);
        assert((a + b).drop_first() =~= a.drop_first() + b);
        assert((a + b)[0] == a[0]);
        assert(encode_utf8(a + b) =~= encode_scalar(a[0] as u32) + encode_utf8(a.drop_first() + b));
        assert(encode_utf8(a) =~= encode_scalar(a[0] as u32) + encode_utf8(a.drop_first()));
    }
}

proof fn lemma_url_trimmed(s: Seq<char>)
    ensures
        url_trimmed(s).len() <= s.len(),
        url_trimmed(s) =~= s.take(url_trimmed(s).len() as int),
        encode_utf8(s).len() == encode_utf8(url_trimmed(s)).len() + (s.len() - url_trimmed(s).len()),
    decreases s.len(),
{
    if s.len() > 0 && is_url_trailer(s.last()) {
        let d = s.drop_last();
        lemma_url_trimmed(d);
        assert(s =~= d + seq![s.last()]);
        lemma_encode_concat(d, seq![s.last()]);
        let c = s.last();
        assert(seq![c].drop_first() =~= Seq::<char>::empty());
        assert(is_ascii_chars(seq![c]));
        is_ascii_chars_encode_utf8(seq![c]);
        assert(encode_utf8(seq![c]).len() == 1);
        assert(url_trimmed(s) == url_trimmed(d));
        assert(d.take(url_trimmed(d).len() as int) =~= s.take(url_trimmed(d).len() as int));
    } else {
        assert(s.take(s.len() as int) =~= s);
    }
}

fn url_trim_chars(s: &[char]) -> (r: usize)
    ensures
        r <= s@.len(),
        url_trimmed(s@) =~= s@.take(r as int),
{
    let mut n: usize = s.len();
    proof {
        assert(s@.take(n as int) =~= s@);
    }
    while n > 0 && (s[n - 1] == ',' || s[n - 1] == '.' || s[n - 1] == ';' || s[n - 1] == ')')
        invariant
            n <= s@.len(),
            url_trimmed(s@) == url_trimmed(s@.take(n as int)),
        decreases n,
    {
        proof {
            assert(s@.take(n as int).drop_last() =~= s@.take(n - 1));
        }
        n = n - 1;
    }
    proof {
        lemma_url_trimmed(s@.take(n as int));
    }
    n
}

fn bare_url_find(source: &str, ctx: &ScanContext, full: &(usize, usize, Vec<char>)) -> (r: Option<ScanIssue>)
    requires
        full.0 <= full.1,
        byte_range_text(source@, full.0 as int, full.1 as int) == Some(full.2@),
        encode_utf8(full.2@).len() == full.1 - full.0,
    ensures
        opt_issue(r) == bare_url_issue(source@, ctx@, (full.0, full.1, full.2@)),
{
    proof {
        assert(is_char_boundary(encode_utf8(source@), 0));
    }
    if inside_html_tag(source, full.0) {
        return None;
    }
    let n = url_trim_chars(full.2.as_slice());
    let url = crate::strings::sub_chars(full.2.as_slice(), 0, n);
    proof {
        lemma_url_trimmed(full.2@);
    }
    let end = full.1 - (full.2.len() - n);
    let rep = match ctx.find_link_target(url.as_slice()) {
        Some(t) => md_link_chars(str_chars(t.0.as_str()).as_slice(), t.1.as_slice()),
        None => {
            let mut v = vec!['<'];
            push_all(&mut v, url.as_slice());
            v.push('>');
            proof {
                reveal_strlit("<");
                reveal_strlit(">");
            }
            v
        },
    };
    let issue = make_issue(
        source,
        "bare_url",
        "Plain URL",
        full.0,
        end,
        string_from_chars(url.as_slice()),
        Some(string_from_chars(rep.as_slice())),
        ScanAction::ReplaceText { replacement: string_from_chars(rep.as_slice()) },
    );
    proof {
        let e = bare_url_issue(source@, ctx@, (full.0, full.1, full.2@));
        assert(url@ == url_trimmed(full.2@));
        assert(end == (full.0 + encode_utf8(url@).len()) as usize);
        assert(e.unwrap() =~= issue@);
    }
    Some(issue)
}

fn review_issue(source: &str, step: ScanStep, full: &(usize, usize, Vec<char>)) -> (r: ScanIssue)
    requires
        is_review(step),
    ensures
        r@ == issue_at(
            source@,
            review_names(step).0,
            review_names(step).1,
            full.0,
            full.1,
            full.2@,
            None,
            ActionView::ReviewOnly,
        ),
{
    let (kind, label) = match step {
        ScanStep::Style => ("inline_style", "Inline style"),
        ScanStep::Class => ("inline_class", "Class attribute"),
        ScanStep::Dangerous => ("dangerous_html", "Dangerous HTML"),
        _ => ("complex_html", "Complex HTML"),
    };
    make_issue(
        source,
        kind,
        label,
        full.0,
        full.1,
        string_from_chars(full.2.as_slice()),
        None,
        ScanAction::ReviewOnly,
    )
}

/// The finding that one match of a scan yields, given the spans claimed so far.
fn match_issue(
    source: &str,
    ctx: &ScanContext,
    step: ScanStep,
    m: &CaptureGroups,
    occupied: &[(usize, usize)],
) -> (r: Option<ScanIssue>)
    requires
        forall|g: int|
            0 <= g < m.deep_view().len() ==> (#[trigger] m.deep_view()[g] matches Some(span) ==> span.0
                <= span.1 && byte_range_text(source@, span.0 as int, span.1 as int) == Some(span.2)
                && encode_utf8(span.2).len() == span.1 - span.0),
    ensures
        opt_issue(r) == step_issue(source@, ctx@, step, m.deep_view(), occupied@),
{
    let full = match group_at(m, 0) {
        Some(f) => f,
        None => return None,
    };
    proof {
        assert(m.deep_view()[0] matches Some(span));
    }
    if overlaps(occupied, full.0, full.1) {
        return None;
    }
    match step {
        ScanStep::Markdown => markdown_find(source, ctx, m, &full),
        ScanStep::HtmlLink => html_link_find(source, ctx, m, &full),
        ScanStep::HtmlImage => html_image_find(source, ctx, m, &full),
        ScanStep::BareUrl => bare_url_find(source, ctx, &full),
        ScanStep::Style | ScanStep::Class | ScanStep::Dangerous | ScanStep::Complex => Some(
            review_issue(source, step, &full),
        ),
        _ => tag_find(source, step, m, &full),
    }
}

/// Runs one scan over its matches (`found`, as `Regex::captures_iter` yields
/// them): each match that no claimed span overlaps and that the scan accepts
/// becomes a finding; the findings of link, image and tag scans claim their
/// spans.
pub fn scan_found(
    source: &str,
    ctx: &ScanContext,
    step: ScanStep,
    found: &[CaptureGroups],
    issues: &mut Vec<ScanIssue>,
    occupied: &mut Vec<(usize, usize)>,
)
    requires
        spans_of_text(found.deep_view(), source@),
    ensures
        (issue_views(final(issues)@), final(occupied)@) == scan_matches(
            source@,
            ctx@,
            step,
            found.deep_view(),
            issue_views(old(issues)@),
            old(occupied)@,
        ),
{
    let ghost ms = found.deep_view();
    let ghost is0 = issue_views(issues@);
    let ghost oc0 = occupied@;
    let mut i: usize = 0;
    proof {
        assert(ms.take(0) =~= Seq::<MatchView>::empty());
    }
    while i < found.len()
        invariant
            0 <= i <= found@.len(),
            ms == found.deep_view(),
            spans_of_text(ms, source@),
            (issue_views(issues@), occupied@) == scan_matches(
                source@,
                ctx@,
                step,
                ms.take(i as int),
                is0,
                oc0,
            ),
        decreases found@.len() - i,
    {
        let m = &found[i];
        proof {
            assert(ms.take(i + 1).drop_last() =~= ms.take(i as int));
            assert(ms.take(i + 1).last() == m.deep_view());
            assert forall|g: int| 0 <= g < m.deep_view().len() implies (#[trigger] m.deep_view()[g] matches Some(
                span,
            ) ==> span.0 <= span.1 && byte_range_text(source@, span.0 as int, span.1 as int)
                == Some(span.2) && encode_utf8(span.2).len() == span.1 - span.0) by {
                assert(ms[i as int][g] == m.deep_view()[g]);
            }
        }
        match match_issue(source, ctx, step, m, occupied.as_slice()) {
            Some(issue) => {
                let ghost before = issues@;
                if step != ScanStep::Style && step != ScanStep::Class && step != ScanStep::Dangerous
                    && step != ScanStep::Complex && step != ScanStep::BareUrl {
                    occupied.push((issue.start, issue.end));
                }
                issues.push(issue);
                proof {
                    assert(issue_views(issues@) =~= issue_views(before).push(issues@.last()@));
                }
            },
            None => {},
        }
        i = i + 1;
    }
    proof {
        assert(ms.take(i as int) =~= ms);
    }
}

/// Runs one scan of a document.
fn run_step(
    source: &str,
    ctx: &ScanContext,
    step: ScanStep,
    issues: &mut Vec<ScanIssue>,
    occupied: &mut Vec<(usize, usize)>,
)
    ensures
        (issue_views(final(issues)@), final(occupied)@) == scan_matches(
            source@,
            ctx@,
            step,
            step_matches(step, source@),
            issue_views(old(issues)@),
            old(occupied)@,
        ),
{
    match regex_captures(step.pattern(), source) {
        Some(all) => scan_found(source, ctx, step, all.as_slice(), issues, occupied),
        None => {},
    }
}


proof fn lemma_insert_pos(s: Seq<IssueView>, start: usize)
    ensures
        insert_pos(s, start) <= s.len(),
        forall|i: int| 0 <= i < insert_pos(s, start) ==> #[trigger] s[i].start <= start,
        insert_pos(s, start) < s.len() ==> s[insert_pos(s, start) as int].start > start,
    decreases s.len(),
{
    if s.len() > 0 && s[0].start <= start {
        lemma_insert_pos(s.drop_first(), start);
        assert forall|i: int| 0 <= i < insert_pos(s, start) implies #[trigger] s[i].start
            <= start by {
            if i > 0 {
                assert(s[i] == s.drop_first()[i - 1]);
            }
        }
    }
}

/// Ordering findings by start gives findings in ascending order of start that
/// are the same findings, each as often.
pub proof fn sort_by_start_orders(s: Seq<IssueView>)
    ensures
        starts_sorted(sort_by_start(s)),
        sort_by_start(s).to_multiset() == s.to_multiset(),
    decreases s.len(),
{
    broadcast use vstd::seq_lib::to_multiset_insert, vstd::seq_lib::to_multiset_build;

    if s.len() > 0 {
        let t = sort_by_start(s.drop_last());
        sort_by_start_orders(s.drop_last());
        let x = s.last();
        lemma_insert_pos(t, x.start);
        let p = insert_pos(t, x.start) as int;
        let u = t.insert(p, x);
        assert forall|i: int, j: int| 0 <= i <= j < u.len() implies #[trigger] u[i].start
            <= #[trigger] u[j].start by {
            if j < p {
            } else if j == p {
                if i < p {
                    assert(u[i] == t[i]);
                }
            } else if i < p {
                assert(u[i] == t[i]);
                assert(u[j] == t[j - 1]);
                assert(t[p].start > x.start);
                assert(t[p].start <= t[j - 1].start);
            } else if i == p {
                assert(u[j] == t[j - 1]);
                assert(t[p].start <= t[j - 1].start);
            } else {
                assert(u[i] == t[i - 1]);
                assert(u[j] == t[j - 1]);
            }
        }
        assert(s.drop_last().push(x) =~= s);
    }
}

fn find_insert_pos(sorted: &Vec<ScanIssue>, start: usize) -> (r: usize)
    ensures
        r == insert_pos(issue_views(sorted@), start),
{
    let ghost v = issue_views(sorted@);
    let mut j: usize = 0;
    proof {
        assert(v.skip(0) =~= v);
    }
    while j < sorted.len() && sorted[j].start <= start
        invariant
            0 <= j <= sorted@.len(),
            v == issue_views(sorted@),
            insert_pos(v, start) == j + insert_pos(v.skip(j as int), start),
        decreases sorted@.len() - j,
    {
        proof {
            assert(v.skip(j as int)[0] == v[j as int]);
            assert(v.skip(j as int).drop_first() =~= v.skip(j + 1));
        }
        j = j + 1;
    }
    j
}

/// Orders findings by start; findings with equal starts keep their order.
pub fn sort_issues_by_start(issues: Vec<ScanIssue>) -> (r: Vec<ScanIssue>)
    ensures
        issue_views(r@) == sort_by_start(issue_views(issues@)),
{
    let ghost orig = issue_views(issues@);
    let mut rest = issues;
    let n: usize = rest.len();
    let mut sorted: Vec<ScanIssue> = Vec::new();
    let mut k: usize = 0;
    proof {
        assert(orig.take(0) =~= Seq::<IssueView>::empty());
        assert(orig.skip(0) =~= orig);
    }
    while rest.len() > 0
        invariant
            k + rest@.len() == orig.len(),
            orig.len() == n,
            issue_views(sorted@) == sort_by_start(orig.take(k as int)),
            issue_views(rest@) == orig.skip(k as int),
        decreases rest@.len(),
    {
        let ghost before = sorted@;
        let ghost old_rest = rest@;
        proof {
            assert(issue_views(old_rest)[0] == orig.skip(k as int)[0]);
        }
        let x = rest.remove(0);
        proof {
            assert(x == old_rest[0]);
            assert(x@ == orig[k as int]);
            assert(rest@ =~= old_rest.drop_first());
            assert forall|j: int| 0 <= j < rest@.len() implies #[trigger] issue_views(rest@)[j]
                == orig.skip(k + 1)[j] by {
                assert(issue_views(old_rest)[j + 1] == orig.skip(k as int)[j + 1]);
            }
            assert(issue_views(rest@) =~= orig.skip(k + 1));
            assert(orig.take(k + 1).drop_last() =~= orig.take(k as int));
        }
        let p = find_insert_pos(&sorted, x.start);
        proof {
            lemma_insert_pos(issue_views(sorted@), x.start);
        }
        sorted.insert(p, x);
        proof {
            assert(issue_views(sorted@) =~= issue_views(before).insert(p as int, x@));
        }
        k = k + 1;
    }
    proof {
        assert(orig.take(k as int) =~= orig);
    }
    sorted
}

fn step_at(k: usize) -> (r: ScanStep)
    requires
        k < 12,
    ensures
        r == scan_order()[k as int],
{
    match k {
        0 => ScanStep::Markdown,
        1 => ScanStep::HtmlLink,
        2 => ScanStep::HtmlImage,
        3 => ScanStep::Paragraph,
        4 => ScanStep::Strong,
        5 => ScanStep::Bold,
        6 => ScanStep::Italic,
        7 => ScanStep::Style,
        8 => ScanStep::Class,
        9 => ScanStep::Dangerous,
        10 => ScanStep::Complex,
        _ => ScanStep::BareUrl,
    }
}

/// The findings of a document: Markdown links and images, HTML links and
/// images and inline tags that could become Markdown (each claiming its span),
/// then review-only markup and plain URLs outside the claimed spans, ordered by
/// where they start.
pub fn scan_document(source: &str, ctx: &ScanContext) -> (r: Vec<ScanIssue>)
    ensures
        issue_views(r@) == scan_findings(source@, ctx@),
        starts_sorted(issue_views(r@)),
{
    let mut issues: Vec<ScanIssue> = Vec::new();
    let mut occupied: Vec<(usize, usize)> = Vec::new();
    let mut k: usize = 0;
    proof {
        assert(issue_views(issues@) =~= Seq::<IssueView>::empty());
    }
    while k < 12
        invariant
            k <= 12,
            (issue_views(issues@), occupied@) == run_scans(source@, ctx@, k as int),
        decreases 12 - k,
    {
        run_step(source, ctx, step_at(k), &mut issues, &mut occupied);
        k = k + 1;
    }
    let r = sort_issues_by_start(issues);
    proof {
        sort_by_start_orders(run_scans(source@, ctx@, 12).0);
    }
    r
}

/// Scans a content item's body against a site's scan context.
pub fn scan_content(content: &ContentItem, ctx: &ScanContext) -> (r: ContentScanReport)
    ensures
        r.content == *content,
        issue_views(r.issues@) == scan_findings(content.page_content@, ctx@),
        starts_sorted(issue_views(r.issues@)),
{
    let issues = scan_document(content.page_content.as_str(), ctx);
    ContentScanReport { content: content.clone(), issues }
}


/// Whether claimed spans pairwise do not overlap.
pub open spec fn spans_disjoint(oc: Seq<(usize, usize)>) -> bool {
    forall|i: int, j: int|
        0 <= i < j < oc.len() ==> !(#[trigger] oc[j].0 < oc[i].1 && oc[j].1 > #[trigger] oc[i].0)
}

proof fn lemma_step_claims_free_span(
    source: Seq<char>,
    ctx: ScanContextView,
    step: ScanStep,
    m: MatchView,
    oc: Seq<(usize, usize)>,
)
    requires
        step_marks(step),
        step_issue(source, ctx, step, m, oc) is Some,
    ensures
        !overlaps_any(
            oc,
            step_issue(source, ctx, step, m, oc)->0.start,
            step_issue(source, ctx, step, m, oc)->0.end,
        ),
{
}

proof fn lemma_scan_matches_disjoint(
    source: Seq<char>,
    ctx: ScanContextView,
    step: ScanStep,
    ms: Seq<MatchView>,
    issues: Seq<IssueView>,
    oc: Seq<(usize, usize)>,
)
    requires
        spans_disjoint(oc),
    ensures
        spans_disjoint(scan_matches(source, ctx, step, ms, issues, oc).1),
    decreases ms.len(),
{
    if ms.len() > 0 {
        lemma_scan_matches_disjoint(source, ctx, step, ms.drop_last(), issues, oc);
        let (is, o) = scan_matches(source, ctx, step, ms.drop_last(), issues, oc);
        match step_issue(source, ctx, step, ms.last(), o) {
            Some(i) => {
                if step_marks(step) {
                    lemma_step_claims_free_span(source, ctx, step, ms.last(), o);
                    let o2 = o.push((i.start, i.end));
                    assert forall|a: int, b: int| 0 <= a < b < o2.len() implies !(#[trigger] o2[b].0
                        < o2[a].1 && o2[b].1 > #[trigger] o2[a].0) by {
                        if b == o.len() {
                            assert(o2[a] == o[a]);
                            if i.start < o[a].1 && i.end > o[a].0 {
                                assert(overlaps_any(o, i.start, i.end));
                            }
                        } else {
                            assert(o2[a] == o[a]);
                            assert(o2[b] == o[b]);
                        }
                    }
                }
            },
            None => {},
        }
    }
}

/// The spans claimed by the findings of link, image and tag scans never
/// overlap: each part of a document is rewritten by at most one of them.
pub proof fn claimed_spans_disjoint(source: Seq<char>, ctx: ScanContextView, n: int)
    ensures
        spans_disjoint(run_scans(source, ctx, n).1),
    decreases n,
{
    if n > 0 {
        claimed_spans_disjoint(source, ctx, n - 1);
        let (is, oc) = run_scans(source, ctx, n - 1);
        let step = scan_order()[n - 1];
        lemma_scan_matches_disjoint(source, ctx, step, step_matches(step, source), is, oc);
    }
}

/// A replacement chosen for a finding: the span it replaces and its text.
#[derive(Debug)]
pub struct AppliedIssue {
    pub issue_id: String,
    pub start: usize,
    pub end: usize,
    pub replacement: String,
    pub kind: String,
}

/// (issue id, start, end, replacement, kind)
pub type AppliedView = (Seq<char>, usize, usize, Seq<char>, Seq<char>);

impl View for AppliedIssue {
    type V = AppliedView;

    open spec fn view(&self) -> AppliedView {
        (self.issue_id@, self.start, self.end, self.replacement@, self.kind@)
    }
}

pub open spec fn applied_views(s: Seq<AppliedIssue>) -> Seq<AppliedView> {
    s.map_values(|a: AppliedIssue| a@)
}

pub open spec fn texts(s: Seq<String>) -> Seq<Seq<char>> {
    s.map_values(|t: String| t@)
}

/// The asset chosen by hand for a finding: the first entry for its id.
pub open spec fn manual_asset(manual: Seq<(Seq<char>, AssetRefView)>, id: Seq<char>) -> Option<
    AssetRefView,
>
    decreases manual.len(),
{
    if manual.len() == 0 {
        None
    } else if manual[0].0 == id {
        Some(manual[0].1)
    } else {
        manual_asset(manual.drop_first(), id)
    }
}

/// The replacement that applies to a finding, if it was selected and has one:
/// its replacement text; for an image, the shortcode of the asset chosen by
/// hand or else the suggested one, or else its remote URL when an import of it
/// was asked for.
pub open spec fn applied_for(
    issue: IssueView,
    selected: Seq<Seq<char>>,
    manual: Seq<(Seq<char>, AssetRefView)>,
    remote: Seq<Seq<char>>,
) -> Option<AppliedView> {
    if !selected.contains(issue.issue_id) {
        None
    } else {
        match issue.action {
            ActionView::ReplaceText(rep) => Some(
                (issue.issue_id, issue.start, issue.end, rep, issue.kind),
            ),
            ActionView::ReplaceAsset(alt, title, suggested, remote_url) => {
                let asset = match manual_asset(manual, issue.issue_id) {
                    Some(a) => Some(a),
                    None => suggested,
                };
                match asset {
                    Some(a) => Some(
                        (
                            issue.issue_id,
                            issue.start,
                            issue.end,
                            shortcode_of(a.0, a.1, alt, title),
                            issue.kind,
                        ),
                    ),
                    None => match remote_url {
                        Some(u) => if remote.contains(issue.issue_id) {
                            Some((issue.issue_id, issue.start, issue.end, u, "__remote_import__"@))
                        } else {
                            None
                        },
                        None => None,
                    },
                }
            },
            ActionView::ReviewOnly => None,
        }
    }
}

proof fn lemma_manual_asset_first(manual: Seq<(Seq<char>, AssetRefView)>, id: Seq<char>, j: int)
    requires
        0 <= j < manual.len(),
        manual[j].0 == id,
        forall|k: int| 0 <= k < j ==> manual[k].0 != id,
    ensures
        manual_asset(manual, id) == Some(manual[j].1),
    decreases j,
{
    if j > 0 {
        assert(manual[0].0 != id);
        let rest = manual.drop_first();
        assert forall|k: int| 0 <= k < j - 1 implies rest[k].0 != id by {
            assert(rest[k] == manual[k + 1]);
        }
        lemma_manual_asset_first(rest, id, j - 1);
    }
}

/// A selected image finding for which an asset was chosen by hand is replaced
/// by the shortcode of that asset (the first choice given for the finding),
/// with the finding's alt text and title, whatever asset the scan suggested
/// and whether or not a remote import was asked for.
pub proof fn manual_choice_wins(
    issue: IssueView,
    selected: Seq<Seq<char>>,
    manual: Seq<(Seq<char>, AssetRefView)>,
    remote: Seq<Seq<char>>,
    j: int,
)
    requires
        selected.contains(issue.issue_id),
        issue.action is ReplaceAsset,
        0 <= j < manual.len(),
        manual[j].0 == issue.issue_id,
        forall|k: int| 0 <= k < j ==> manual[k].0 != issue.issue_id,
    ensures
        applied_for(issue, selected, manual, remote) == Some(
            (
                issue.issue_id,
                issue.start,
                issue.end,
                shortcode_of(
                    manual[j].1.0,
                    manual[j].1.1,
                    issue.action->ReplaceAsset_0,
                    issue.action->ReplaceAsset_1,
                ),
                issue.kind,
            ),
        ),
{
    lemma_manual_asset_first(manual, issue.issue_id, j);
}

/// What a selected finding is replaced with, when no asset was chosen by hand
/// for it: a text finding by its proposed text; an image finding by the
/// shortcode of the suggested asset, or else, when its remote URL is known
/// and its import was asked for, by that URL under the kind
/// `__remote_import__`. A finding that was not selected, and a review-only
/// one, is left alone.
pub proof fn replacement_without_manual_choice(
    issue: IssueView,
    selected: Seq<Seq<char>>,
    manual: Seq<(Seq<char>, AssetRefView)>,
    remote: Seq<Seq<char>>,
)
    requires
        forall|k: int| 0 <= k < manual.len() ==> manual[k].0 != issue.issue_id,
    ensures
        !selected.contains(issue.issue_id) ==> applied_for(issue, selected, manual, remote) is None,
        issue.action is ReviewOnly ==> applied_for(issue, selected, manual, remote) is None,
        selected.contains(issue.issue_id) ==> match issue.action {
            ActionView::ReplaceText(rep) => applied_for(issue, selected, manual, remote) == Some(
                (issue.issue_id, issue.start, issue.end, rep, issue.kind),
            ),
            ActionView::ReplaceAsset(alt, title, Some(a), _) => applied_for(
                issue,
                selected,
                manual,
                remote,
            ) == Some(
                (issue.issue_id, issue.start, issue.end, shortcode_of(a.0, a.1, alt, title), issue.kind),
            ),
            ActionView::ReplaceAsset(_, _, None, Some(u)) => applied_for(
                issue,
                selected,
                manual,
                remote,
            ) == if remote.contains(issue.issue_id) {
                Some((issue.issue_id, issue.start, issue.end, u, "__remote_import__"@))
            } else {
                None
            },
            ActionView::ReplaceAsset(_, _, None, None) => applied_for(issue, selected, manual, remote)
                is None,
            ActionView::ReviewOnly => true,
        },
    decreases manual.len(),
{
    if manual.len() > 0 {
        let rest = manual.drop_first();
        assert forall|k: int| 0 <= k < rest.len() implies rest[k].0 != issue.issue_id by {
            assert(rest[k] == manual[k + 1]);
        }
        replacement_without_manual_choice(issue, selected, rest, remote);
        assert(manual_asset(manual, issue.issue_id) == manual_asset(rest, issue.issue_id));
    }
}

/// The replacements that apply to findings, in the findings' order.
pub open spec fn applied_list(
    issues: Seq<IssueView>,
    selected: Seq<Seq<char>>,
    manual: Seq<(Seq<char>, AssetRefView)>,
    remote: Seq<Seq<char>>,
) -> Seq<AppliedView>
    decreases issues.len(),
{
    if issues.len() == 0 {
        Seq::empty()
    } else {
        let prev = applied_list(issues.drop_last(), selected, manual, remote);
        match applied_for(issues.last(), selected, manual, remote) {
            Some(a) => prev.push(a),
            None => prev,
        }
    }
}

/// The position at which a replacement starting at `start` goes into
/// replacements ordered by descending start, after those starting at or after it.
pub open spec fn insert_pos_desc(s: Seq<AppliedView>, start: usize) -> nat
    decreases s.len(),
{
    if s.len() == 0 {
        0
    } else if s[0].1 < start {
        0
    } else {
        1 + insert_pos_desc(s.drop_first(), start)
    }
}

/// Replacements ordered by descending start; equal starts keep their order.
pub open spec fn sort_by_start_desc(s: Seq<AppliedView>) -> Seq<AppliedView>
    decreases s.len(),
{
    if s.len() == 0 {
        s
    } else {
        let t = sort_by_start_desc(s.drop_last());
        t.insert(insert_pos_desc(t, s.last().1) as int, s.last())
    }
}

pub open spec fn starts_descending(s: Seq<AppliedView>) -> bool {
    forall|i: int, j: int| 0 <= i <= j < s.len() ==> #[trigger] s[j].1 <= #[trigger] s[i].1
}

proof fn lemma_insert_pos_desc(s: Seq<AppliedView>, start: usize)
    ensures
        insert_pos_desc(s, start) <= s.len(),
        forall|i: int| 0 <= i < insert_pos_desc(s, start) ==> #[trigger] s[i].1 >= start,
        insert_pos_desc(s, start) < s.len() ==> s[insert_pos_desc(s, start) as int].1 < start,
    decreases s.len(),
{
    if s.len() > 0 && s[0].1 >= start {
        lemma_insert_pos_desc(s.drop_first(), start);
        assert forall|i: int| 0 <= i < insert_pos_desc(s, start) implies #[trigger] s[i].1
            >= start by {
            if i > 0 {
                assert(s[i] == s.drop_first()[i - 1]);
            }
        }
    }
}

/// Ordering replacements by descending start gives replacements in descending
/// order of start that are the same replacements, each as often, so that
/// applying them in turn never moves a span not yet replaced.
pub proof fn sort_by_start_desc_orders(s: Seq<AppliedView>)
    ensures
        starts_descending(sort_by_start_desc(s)),
        sort_by_start_desc(s).to_multiset() == s.to_multiset(),
    decreases s.len(),
{
    broadcast use vstd::seq_lib::to_multiset_insert, vstd::seq_lib::to_multiset_build;

    if s.len() > 0 {
        let t = sort_by_start_desc(s.drop_last());
        sort_by_start_desc_orders(s.drop_last());
        let x = s.last();
        lemma_insert_pos_desc(t, x.1);
        let p = insert_pos_desc(t, x.1) as int;
        let u = t.insert(p, x);
        assert forall|i: int, j: int| 0 <= i <= j < u.len() implies #[trigger] u[j].1
            <= #[trigger] u[i].1 by {
            if j < p {
            } else if j == p {
                if i < p {
                    assert(u[i] == t[i]);
                }
            } else if i < p {
                assert(u[i] == t[i]);
                assert(u[j] == t[j - 1]);
                assert(t[j - 1].1 <= t[p].1);
            } else if i == p {
                assert(u[j] == t[j - 1]);
                assert(t[j - 1].1 <= t[p].1);
            } else {
                assert(u[i] == t[i - 1]);
                assert(u[j] == t[j - 1]);
            }
        }
        assert(s.drop_last().push(x) =~= s);
    }
}

fn contains_text(set: &[String], x: &str) -> (b: bool)
    ensures
        b == texts(set@).contains(x@),
{
    let mut i: usize = 0;
    while i < set.len()
        invariant
            0 <= i <= set@.len(),
            forall|j: int| 0 <= j < i ==> set@[j]@ != x@,
        decreases set@.len() - i,
    {
        if str_eq(set[i].as_str(), x) {
            proof {
                assert(texts(set@)[i as int] == x@);
            }
            return true;
        }
        i = i + 1;
    }
    proof {
        if texts(set@).contains(x@) {
            let j = choose|j: int| 0 <= j < texts(set@).len() && texts(set@)[j] == x@;
            assert(set@[j]@ == x@);
        }
    }
    false
}

pub open spec fn manual_views(m: Seq<(String, AssetReference)>) -> Seq<(Seq<char>, AssetRefView)> {
    m.map_values(|e: (String, AssetReference)| (e.0@, e.1@))
}

fn find_manual_asset(manual: &[(String, AssetReference)], id: &str) -> (r: Option<AssetReference>)
    ensures
        crate::content_scan::opt_asset(r) == manual_asset(manual_views(manual@), id@),
{
    let ghost mv = manual_views(manual@);
    let mut i: usize = 0;
    proof {
        assert(mv.skip(0) =~= mv);
    }
    while i < manual.len()
        invariant
            0 <= i <= manual@.len(),
            mv == manual_views(manual@),
            manual_asset(mv, id@) == manual_asset(mv.skip(i as int), id@),
        decreases manual@.len() - i,
    {
        proof {
            assert(mv.skip(i as int)[0] == mv[i as int]);
            assert(mv.skip(i as int).drop_first() =~= mv.skip(i + 1));
        }
        if str_eq(manual[i].0.as_str(), id) {
            return Some(manual[i].1.clone());
        }
        i = i + 1;
    }
    None
}

fn applied_for_issue(
    issue: &ScanIssue,
    selected: &[String],
    manual: &[(String, AssetReference)],
    remote: &[String],
) -> (r: Option<AppliedIssue>)
    ensures
        match r {
            Some(a) => applied_for(issue@, texts(selected@), manual_views(manual@), texts(remote@))
                == Some(a@),
            None => applied_for(issue@, texts(selected@), manual_views(manual@), texts(remote@)) is None,
        },
{
    if !contains_text(selected, issue.issue_id.as_str()) {
        return None;
    }
    match &issue.action {
        ScanAction::ReplaceText { replacement } => Some(
            AppliedIssue {
                issue_id: issue.issue_id.clone(),
                start: issue.start,
                end: issue.end,
                replacement: replacement.clone(),
                kind: issue.kind.clone(),
            },
        ),
        ScanAction::ReplaceAsset { alt, title, suggested_asset, remote_url } => {
            let asset = match find_manual_asset(manual, issue.issue_id.as_str()) {
                Some(a) => Some(a),
                None => match suggested_asset {
                    Some(a) => Some(a.clone()),
                    None => None,
                },
            };
            match asset {
                Some(a) => {
                    let t = match title {
                        Some(t) => Some(str_chars(t.as_str())),
                        None => None,
                    };
                    let sc = shortcode_chars(
                        str_chars(a.asset_id.as_str()).as_slice(),
                        str_chars(a.variant.as_str()).as_slice(),
                        str_chars(alt.as_str()).as_slice(),
                        &t,
                    );
                    Some(
                        AppliedIssue {
                            issue_id: issue.issue_id.clone(),
                            start: issue.start,
                            end: issue.end,
                            replacement: string_from_chars(sc.as_slice()),
                            kind: issue.kind.clone(),
                        },
                    )
                },
                None => match remote_url {
                    Some(u) => {
                        if contains_text(remote, issue.issue_id.as_str()) {
                            Some(
                                AppliedIssue {
                                    issue_id: issue.issue_id.clone(),
                                    start: issue.start,
                                    end: issue.end,
                                    replacement: u.clone(),
                                    kind: owned("__remote_import__"),
                                },
                            )
                        } else {
                            None
                        }
                    },
                    None => None,
                },
            }
        },
        ScanAction::ReviewOnly => None,
    }
}

fn find_insert_pos_desc(sorted: &Vec<AppliedIssue>, start: usize) -> (r: usize)
    ensures
        r == insert_pos_desc(applied_views(sorted@), start),
{
    let ghost v = applied_views(sorted@);
    let mut j: usize = 0;
    proof {
        assert(v.skip(0) =~= v);
    }
    while j < sorted.len() && sorted[j].start >= start
        invariant
            0 <= j <= sorted@.len(),
            v == applied_views(sorted@),
            insert_pos_desc(v, start) == j + insert_pos_desc(v.skip(j as int), start),
        decreases sorted@.len() - j,
    {
        proof {
            assert(v.skip(j as int)[0] == v[j as int]);
            assert(v.skip(j as int).drop_first() =~= v.skip(j + 1));
        }
        j = j + 1;
    }
    j
}

/// The replacements for the selected findings, latest span first, so that
/// they can be applied one after another: text replacements as proposed; for
/// images, the shortcode of the asset chosen by hand for the finding or else
/// of the suggested asset, or else, when its import was asked for, the remote
/// URL to import (of kind `__remote_import__`).
pub fn apply_issue_replacements(
    source: &str,
    issues: &[ScanIssue],
    selected_issue_ids: &[String],
    manual_assets: &[(String, AssetReference)],
    remote_imports: &[String],
) -> (r: Vec<AppliedIssue>)
    ensures
        applied_views(r@) == sort_by_start_desc(
            applied_list(
                issue_views(issues@),
                texts(selected_issue_ids@),
                manual_views(manual_assets@),
                texts(remote_imports@),
            ),
        ),
        starts_descending(applied_views(r@)),
{
    let ghost iv = issue_views(issues@);
    let ghost sel = texts(selected_issue_ids@);
    let ghost man = manual_views(manual_assets@);
    let ghost rem = texts(remote_imports@);
    let ghost list = applied_list(iv, sel, man, rem);
    let mut sorted: Vec<AppliedIssue> = Vec::new();
    let mut i: usize = 0;
    proof {
        assert(iv.take(0) =~= Seq::<IssueView>::empty());
    }
    while i < issues.len()
        invariant
            0 <= i <= issues@.len(),
            iv == issue_views(issues@),
            sel == texts(selected_issue_ids@),
            man == manual_views(manual_assets@),
            rem == texts(remote_imports@),
            applied_views(sorted@) == sort_by_start_desc(applied_list(iv.take(i as int), sel, man, rem)),
        decreases issues@.len() - i,
    {
        proof {
            assert(iv.take(i + 1).drop_last() =~= iv.take(i as int));
            assert(iv.take(i + 1).last() == issues@[i as int]@);
        }
        match applied_for_issue(&issues[i], selected_issue_ids, manual_assets, remote_imports) {
            Some(a) => {
                let ghost before = sorted@;
                let p = find_insert_pos_desc(&sorted, a.start);
                proof {
                    lemma_insert_pos_desc(applied_views(sorted@), a.start);
                    let prev = applied_list(iv.take(i as int), sel, man, rem);
                    let cur = iv.take(i + 1);
                    assert(cur.last() == issues@[i as int]@);
                    assert(applied_for(cur.last(), sel, man, rem) == Some(a@));
                    assert(applied_list(cur.drop_last(), sel, man, rem) == prev);
                    assert(applied_list(cur, sel, man, rem) == prev.push(a@));
                    assert(prev.push(a@).drop_last() =~= prev);
                }
                sorted.insert(p, a);
                proof {
                    assert(applied_views(sorted@) =~= applied_views(before).insert(
                        p as int,
                        sorted@[p as int]@,
                    ));
                }
            },
            None => {},
        }
        i = i + 1;
    }
    proof {
        assert(iv.take(i as int) =~= iv);
        sort_by_start_desc_orders(list);
    }
    sorted
}

} // verus!
