//! Internal paths, hosts, escaping and snippets: the text helpers that content
//! scanning and asset rendering share.
use crate::deps::{byte_range_text, parse_url, string_from_chars, url_parts_of};
use crate::strings::{
    ascii_lower, ascii_lower_chars, chars_eq, chars_of, decimal, decimal_chars, ends_with,
    find_last, has_suffix, lemma_find_last_facts, push_all, replace, replace_chars, rfind_char,
    split_once, split_once_chars, starts_with, str_byte_range, str_chars, trim, trim_chars,
    CharPat,
};
use vstd::prelude::*;

verus! {

/// `s.split_once('#')`, keeping the whole text when there is no `#`.
pub open spec fn split_fragment(s: Seq<char>) -> (Seq<char>, Option<Seq<char>>) {
    match split_once(s, '#') {
        Some((before, after)) => (before, Some(after)),
        None => (s, None),
    }
}

/// Splits a link at its first `#` into the part before it and the fragment.
pub fn split_fragment_chars(s: &[char]) -> (r: (Vec<char>, Option<Vec<char>>))
    ensures
        r.0@ == split_fragment(s@).0,
        match r.1 {
            Some(f) => split_fragment(s@).1 == Some(f@),
            None => split_fragment(s@).1 is None,
        },
{
    match split_once_chars(s, '#') {
        Some((before, after)) => (before, Some(after)),
        None => (vstd::slice::slice_to_vec(s), None),
    }
}

/// `base#fragment` when the fragment is present and not empty, else `base`.
pub open spec fn with_fragment(base: Seq<char>, fragment: Option<Seq<char>>) -> Seq<char> {
    match fragment {
        Some(f) if f.len() > 0 => base + seq!['#'] + f,
        _ => base,
    }
}

pub fn append_fragment(base: &[char], fragment: &Option<Vec<char>>) -> (r: Vec<char>)
    ensures
        r@ == with_fragment(
            base@,
            match fragment {
                Some(f) => Some(f@),
                None => None,
            },
        ),
{
    let mut r = vstd::slice::slice_to_vec(base);
    match fragment {
        Some(f) => {
            if f.len() > 0 {
                r.push('#');
                push_all(&mut r, f.as_slice());
            }
        },
        None => {},
    }
    r
}

/// The canonical form of an internal path: one leading slash, no trailing
/// slash (but for the root), and a non-empty query and fragment kept.
pub open spec fn normalized_internal_path(value: Seq<char>) -> Seq<char> {
    let (path_part, fragment) = split_fragment(value);
    let (path, query) = match split_once(path_part, '?') {
        Some((p, q)) => (p, Some(q)),
        None => (path_part, None),
    };
    let t = trim(path, CharPat::Ws);
    let base = if t.len() == 0 || t == seq!['/'] {
        seq!['/']
    } else {
        seq!['/'] + trim(t, CharPat::One('/'))
    };
    let with_query = match query {
        Some(q) if q.len() > 0 => base + seq!['?'] + q,
        _ => base,
    };
    with_fragment(with_query, fragment)
}

fn is_single_slash(t: &[char]) -> (b: bool)
    ensures
        b == (t@ == seq!['/']),
{
    if t.len() == 1 && t[0] == '/' {
        proof {
            assert(t@ =~= seq!['/']);
        }
        true
    } else {
        proof {
            if t@.len() == 1 {
                assert(t@[0] != seq!['/'][0]);
            }
        }
        false
    }
}

/// The canonical form of an internal path.
pub fn normalize_internal_path(value: &[char]) -> (r: Vec<char>)
    ensures
        r@ == normalized_internal_path(value@),
{
    let (path_part, fragment) = split_fragment_chars(value);
    let (path, query) = match split_once_chars(path_part.as_slice(), '?') {
        Some((p, q)) => (p, Some(q)),
        None => (path_part, None),
    };
    let t = trim_chars(path.as_slice(), &CharPat::Ws);
    let mut base: Vec<char> = Vec::new();
    base.push('/');
    if !(t.len() == 0 || is_single_slash(t.as_slice())) {
        let inner = trim_chars(t.as_slice(), &CharPat::One('/'));
        push_all(&mut base, inner.as_slice());
    }
    match &query {
        Some(q) => {
            if q.len() > 0 {
                base.push('?');
                push_all(&mut base, q.as_slice());
            }
        },
        None => {},
    }
    let r = append_fragment(base.as_slice(), &fragment);
    proof {
        assert(seq!['/'] =~= seq!['/'] + Seq::<char>::empty());
    }
    r
}

/// How an internal path is shown in rewritten links: normalized, with a
/// trailing slash on every path but the root.
pub open spec fn display_href(value: Seq<char>) -> Seq<char> {
    let n = normalized_internal_path(value);
    let (without_fragment, fragment) = split_fragment(n);
    let (path, query) = match split_once(without_fragment, '?') {
        Some((p, q)) => (p, Some(q)),
        None => (without_fragment, None),
    };
    let shown = if path == seq!['/'] {
        seq!['/']
    } else {
        crate::strings::trim_end(path, CharPat::One('/')) + seq!['/']
    };
    let with_query = match query {
        Some(q) => shown + seq!['?'] + q,
        None => shown,
    };
    match fragment {
        Some(f) => with_query + seq!['#'] + f,
        None => with_query,
    }
}

/// The link text of an internal path.
pub fn display_internal_href(value: &[char]) -> (r: Vec<char>)
    ensures
        r@ == display_href(value@),
{
    let n = normalize_internal_path(value);
    let (without_fragment, fragment) = split_fragment_chars(n.as_slice());
    let (path, query) = match split_once_chars(without_fragment.as_slice(), '?') {
        Some((p, q)) => (p, Some(q)),
        None => (without_fragment, None),
    };
    let mut r: Vec<char>;
    if is_single_slash(path.as_slice()) {
        r = Vec::new();
        r.push('/');
    } else {
        r = crate::strings::trim_end_chars(path.as_slice(), &CharPat::One('/'));
        r.push('/');
    }
    match &query {
        Some(q) => {
            r.push('?');
            push_all(&mut r, q.as_slice());
        },
        None => {},
    }
    match &fragment {
        Some(f) => {
            r.push('#');
            push_all(&mut r, f.as_slice());
        },
        None => {},
    }
    r
}

/// Whether a host is one of the domains or a subdomain of one.
pub open spec fn host_in_domains(domains: Seq<Seq<char>>, host: Seq<char>) -> bool {
    exists|i: int|
        0 <= i < domains.len() && (host == #[trigger] domains[i] || ends_with(
            host,
            seq!['.'] + domains[i],
        ))
}

/// Whether `host` is one of `domains` or a subdomain of one.
pub fn host_matches(domains: &[String], host: &[char]) -> (b: bool)
    ensures
        b == host_in_domains(domains@.map_values(|d: String| d@), host@),
{
    let ghost ds = domains@.map_values(|d: String| d@);
    let mut i: usize = 0;
    while i < domains.len()
        invariant
            0 <= i <= domains@.len(),
            ds == domains@.map_values(|d: String| d@),
            forall|j: int|
                0 <= j < i ==> !(host@ == #[trigger] ds[j] || ends_with(host@, seq!['.'] + ds[j])),
        decreases domains@.len() - i,
    {
        let d = str_chars(domains[i].as_str());
        let mut dotted: Vec<char> = Vec::new();
        dotted.push('.');
        push_all(&mut dotted, d.as_slice());
        if chars_eq(host, d.as_slice()) || has_suffix(host, dotted.as_slice()) {
            proof {
                assert(ds[i as int] == d@);
            }
            return true;
        }
        i = i + 1;
    }
    false
}

/// `value` with each `]` escaped, for a Markdown link label.
pub open spec fn markdown_label_escaped(s: Seq<char>) -> Seq<char> {
    replace(s, "]"@, "\\]"@)
}

pub fn escape_markdown_label(value: &[char]) -> (r: Vec<char>)
    ensures
        r@ == markdown_label_escaped(value@),
{
    proof {
        reveal_strlit("]");
    }
    replace_chars(value, chars_of("]").as_slice(), chars_of("\\]").as_slice())
}

/// A shortcode attribute value: backslashes, then double quotes, escaped.
pub open spec fn shortcode_attr_escaped(s: Seq<char>) -> Seq<char> {
    replace(replace(s, "\\"@, "\\\\"@), "\""@, "\\\""@)
}

pub fn escape_shortcode_attr(value: &[char]) -> (r: Vec<char>)
    ensures
        r@ == shortcode_attr_escaped(value@),
{
    proof {
        reveal_strlit("\\");
        reveal_strlit("\"");
    }
    let a = replace_chars(value, chars_of("\\").as_slice(), chars_of("\\\\").as_slice());
    replace_chars(a.as_slice(), chars_of("\"").as_slice(), chars_of("\\\"").as_slice())
}

/// HTML escaping of `&`, `<`, `>` and `"`, in that order.
pub open spec fn html_escaped(s: Seq<char>) -> Seq<char> {
    replace(replace(replace(replace(s, "&"@, "&amp;"@), "<"@, "&lt;"@), ">"@, "&gt;"@), "\""@, "&quot;"@)
}

pub fn escape_html(value: &[char]) -> (r: Vec<char>)
    ensures
        r@ == html_escaped(value@),
{
    proof {
        reveal_strlit("&");
        reveal_strlit("<");
        reveal_strlit(">");
        reveal_strlit("\"");
    }
    let a = replace_chars(value, chars_of("&").as_slice(), chars_of("&amp;").as_slice());
    let b = replace_chars(a.as_slice(), chars_of("<").as_slice(), chars_of("&lt;").as_slice());
    let c = replace_chars(b.as_slice(), chars_of(">").as_slice(), chars_of("&gt;").as_slice());
    replace_chars(c.as_slice(), chars_of("\"").as_slice(), chars_of("&quot;").as_slice())
}

/// Decoding of the entities `&quot;`, `&#39;`, `&lt;`, `&gt;` and `&amp;`, in
/// that order.
pub open spec fn html_entities_decoded(s: Seq<char>) -> Seq<char> {
    replace(
        replace(
            replace(replace(replace(s, "&quot;"@, "\""@), "&#39;"@, "'"@), "&lt;"@, "<"@),
            "&gt;"@,
            ">"@,
        ),
        "&amp;"@,
        "&"@,
    )
}

/// The state of a document's characters after the first `k` of the nine
/// replacements that escaping (4) and then decoding (5) perform: what the
/// character `c` has become.
pub open spec fn stage_token(k: int, c: char) -> Seq<char> {
    if c == '&' {
        if 1 <= k < 9 { seq!['&', 'a', 'm', 'p', ';'] } else { seq!['&'] }
    } else if c == '<' {
        if 2 <= k < 7 { seq!['&', 'l', 't', ';'] } else { seq!['<'] }
    } else if c == '>' {
        if 3 <= k < 8 { seq!['&', 'g', 't', ';'] } else { seq!['>'] }
    } else if c == '"' {
        if k == 4 { seq!['&', 'q', 'u', 'o', 't', ';'] } else { seq!['"'] }
    } else {
        seq![c]
    }
}

/// The pattern of the `k`-th replacement.
pub open spec fn stage_pattern(k: int) -> Seq<char> {
    if k == 0 { seq!['&'] }
    else if k == 1 { seq!['<'] }
    else if k == 2 { seq!['>'] }
    else if k == 3 { seq!['"'] }
    else if k == 4 { seq!['&', 'q', 'u', 'o', 't', ';'] }
    else if k == 5 { seq!['&', '#', '3', '9', ';'] }
    else if k == 6 { seq!['&', 'l', 't', ';'] }
    else if k == 7 { seq!['&', 'g', 't', ';'] }
    else { seq!['&', 'a', 'm', 'p', ';'] }
}

/// The replacement of the `k`-th replacement.
pub open spec fn stage_replacement(k: int) -> Seq<char> {
    if k == 0 { seq!['&', 'a', 'm', 'p', ';'] }
    else if k == 1 { seq!['&', 'l', 't', ';'] }
    else if k == 2 { seq!['&', 'g', 't', ';'] }
    else if k == 3 { seq!['&', 'q', 'u', 'o', 't', ';'] }
    else if k == 4 { seq!['"'] }
    else if k == 5 { seq!['\''] }
    else if k == 6 { seq!['<'] }
    else if k == 7 { seq!['>'] }
    else { seq!['&'] }
}

/// A document after `k` replacements: each character's token, in order.
pub open spec fn stage_text(k: int, s: Seq<char>) -> Seq<char>
    decreases s.len(),
{
    if s.len() == 0 {
        Seq::empty()
    } else {
        stage_token(k, s[0]) + stage_text(k, s.drop_first())
    }
}

/// No occurrence of `pat` can begin inside `t`, whatever follows it: only the
/// first character may equal the pattern's first, and then the second differs.
pub open spec fn no_match_start(t: Seq<char>, pat: Seq<char>) -> bool {
    &&& forall|i: int| 1 <= i < t.len() ==> #[trigger] t[i] != pat[0]
    &&& t.len() > 0 ==> (t[0] != pat[0] || (t.len() >= 2 && pat.len() >= 2 && t[1] != pat[1]))
}

pub(crate) proof fn lemma_replace_skips(t: Seq<char>, y: Seq<char>, pat: Seq<char>, rep: Seq<char>)
    requires
        pat.len() > 0,
        no_match_start(t, pat),
    ensures
        replace(t + y, pat, rep) == t + replace(y, pat, rep),
    decreases t.len(),
{
    let s = t + y;
    if t.len() == 0 {
        assert(s =~= y);
        assert(t + replace(y, pat, rep) =~= replace(y, pat, rep));
    } else if s.len() < pat.len() {
        assert(replace(y, pat, rep) == y);
    } else {
        if t[0] != pat[0] {
            assert(s.take(pat.len() as int)[0] != pat[0]);
        } else {
            assert(s.take(pat.len() as int)[1] != pat[1]);
        }
        let t1 = t.drop_first();
        assert(s.drop_first() =~= t1 + y);
        if t1.len() > 0 {
            assert(t1[0] == t[1]);
        }
        assert forall|i: int| 1 <= i < t1.len() implies #[trigger] t1[i] != pat[0] by {
            assert(t1[i] == t[i + 1]);
        }
        lemma_replace_skips(t1, y, pat, rep);
        assert(seq![s[0]] + (t1 + replace(y, pat, rep)) =~= t + replace(y, pat, rep));
    }
}

pub(crate) proof fn lemma_replace_takes(y: Seq<char>, pat: Seq<char>, rep: Seq<char>)
    requires
        pat.len() > 0,
    ensures
        replace(pat + y, pat, rep) == rep + replace(y, pat, rep),
{
    let s = pat + y;
    assert(s.take(pat.len() as int) =~= pat);
    assert(s.skip(pat.len() as int) =~= y);
}

pub(crate) proof fn lemma_token_safe(t: Seq<char>, pat: Seq<char>)
    requires
        t.len() <= 6,
        pat.len() > 0,
        t.len() > 0 ==> (t[0] != pat[0] || (t.len() >= 2 && pat.len() >= 2 && t[1] != pat[1])),
        t.len() > 1 ==> t[1] != pat[0],
        t.len() > 2 ==> t[2] != pat[0],
        t.len() > 3 ==> t[3] != pat[0],
        t.len() > 4 ==> t[4] != pat[0],
        t.len() > 5 ==> t[5] != pat[0],
    ensures
        no_match_start(t, pat),
{
    assert forall|i: int| 1 <= i < t.len() implies #[trigger] t[i] != pat[0] by {
        if i == 1 {
        } else if i == 2 {
        } else if i == 3 {
        } else if i == 4 {
        } else {
        }
    }
}

proof fn lemma_stage_token(k: int, c: char)
    requires
        0 <= k < 9,
    ensures
        (stage_token(k, c) == stage_pattern(k) && stage_token(k + 1, c) == stage_replacement(k))
            || (stage_token(k + 1, c) == stage_token(k, c) && no_match_start(
            stage_token(k, c),
            stage_pattern(k),
        )),
{
    let t = stage_token(k, c);
    let p = stage_pattern(k);
    if (c == '&' && (k == 0 || k == 8)) || (c == '<' && (k == 1 || k == 6)) || (c == '>' && (k == 2
        || k == 7)) || (c == '"' && (k == 3 || k == 4)) {
        assert(t =~= p);
        assert(stage_token(k + 1, c) =~= stage_replacement(k));
    } else {
        assert(stage_token(k + 1, c) =~= t);
        lemma_token_safe(t, p);
    }
}

proof fn lemma_stage_step(k: int, s: Seq<char>)
    requires
        0 <= k < 9,
    ensures
        replace(stage_text(k, s), stage_pattern(k), stage_replacement(k)) == stage_text(k + 1, s),
    decreases s.len(),
{
    let pat = stage_pattern(k);
    let rep = stage_replacement(k);
    if s.len() > 0 {
        let t = stage_token(k, s[0]);
        let y = stage_text(k, s.drop_first());
        lemma_stage_step(k, s.drop_first());
        lemma_stage_token(k, s[0]);
        if t == pat && stage_token(k + 1, s[0]) == rep {
            lemma_replace_takes(y, pat, rep);
        } else {
            lemma_replace_skips(t, y, pat, rep);
        }
    }
}

proof fn lemma_stage_ends(s: Seq<char>)
    ensures
        stage_text(0, s) == s,
        stage_text(9, s) == s,
    decreases s.len(),
{
    if s.len() > 0 {
        lemma_stage_ends(s.drop_first());
        assert(s =~= seq![s[0]] + s.drop_first());
    }
}

/// Decoding HTML entities undoes escaping: for every text, decoding its
/// escaped form gives the text back.
pub proof fn entity_decoding_undoes_escaping(s: Seq<char>)
    ensures
        html_entities_decoded(html_escaped(s)) == s,
{
    reveal_strlit("&");
    reveal_strlit("<");
    reveal_strlit(">");
    reveal_strlit("\"");
    reveal_strlit("&amp;");
    reveal_strlit("&lt;");
    reveal_strlit("&gt;");
    reveal_strlit("&quot;");
    reveal_strlit("&#39;");
    reveal_strlit("'");
    assert("&"@ =~= stage_pattern(0));
    assert("<"@ =~= stage_pattern(1));
    assert(">"@ =~= stage_pattern(2));
    assert("\""@ =~= stage_pattern(3));
    assert("&quot;"@ =~= stage_pattern(4));
    assert("&#39;"@ =~= stage_pattern(5));
    assert("&lt;"@ =~= stage_pattern(6));
    assert("&gt;"@ =~= stage_pattern(7));
    assert("&amp;"@ =~= stage_pattern(8));
    assert("&amp;"@ =~= stage_replacement(0));
    assert("&lt;"@ =~= stage_replacement(1));
    assert("&gt;"@ =~= stage_replacement(2));
    assert("&quot;"@ =~= stage_replacement(3));
    assert("\""@ =~= stage_replacement(4));
    assert("'"@ =~= stage_replacement(5));
    assert("<"@ =~= stage_replacement(6));
    assert(">"@ =~= stage_replacement(7));
    assert("&"@ =~= stage_replacement(8));
    lemma_stage_ends(s);
    lemma_stage_step(0, s);
    lemma_stage_step(1, s);
    lemma_stage_step(2, s);
    lemma_stage_step(3, s);
    lemma_stage_step(4, s);
    lemma_stage_step(5, s);
    lemma_stage_step(6, s);
    lemma_stage_step(7, s);
    lemma_stage_step(8, s);
}

pub fn html_entity_decode(value: &[char]) -> (r: Vec<char>)
    ensures
        r@ == html_entities_decoded(value@),
{
    proof {
        reveal_strlit("&quot;");
        reveal_strlit("&#39;");
        reveal_strlit("&lt;");
        reveal_strlit("&gt;");
        reveal_strlit("&amp;");
    }
    let a = replace_chars(value, chars_of("&quot;").as_slice(), chars_of("\"").as_slice());
    let b = replace_chars(a.as_slice(), chars_of("&#39;").as_slice(), chars_of("'").as_slice());
    let c = replace_chars(b.as_slice(), chars_of("&lt;").as_slice(), chars_of("<").as_slice());
    let d = replace_chars(c.as_slice(), chars_of("&gt;").as_slice(), chars_of(">").as_slice());
    replace_chars(d.as_slice(), chars_of("&amp;").as_slice(), chars_of("&").as_slice())
}

/// The identifier of a scan finding: `kind:start:end`.
pub open spec fn issue_id_of(kind: Seq<char>, start: usize, end: usize) -> Seq<char> {
    kind + seq![':'] + decimal(start as nat) + seq![':'] + decimal(end as nat)
}

pub fn issue_id(kind: &[char], start: usize, end: usize) -> (r: Vec<char>)
    ensures
        r@ == issue_id_of(kind@, start, end),
{
    let mut r = vstd::slice::slice_to_vec(kind);
    r.push(':');
    push_all(&mut r, decimal_chars(start as u64).as_slice());
    r.push(':');
    push_all(&mut r, decimal_chars(end as u64).as_slice());
    r
}

/// Whether the span `start..end` overlaps one of the occupied spans.
pub open spec fn overlaps_any(occupied: Seq<(usize, usize)>, start: usize, end: usize) -> bool {
    exists|i: int| 0 <= i < occupied.len() && start < (#[trigger] occupied[i]).1 && end > occupied[i].0
}

pub fn overlaps(occupied: &[(usize, usize)], start: usize, end: usize) -> (b: bool)
    ensures
        b == overlaps_any(occupied@, start, end),
{
    let mut i: usize = 0;
    while i < occupied.len()
        invariant
            0 <= i <= occupied@.len(),
            forall|j: int| 0 <= j < i ==> !(start < (#[trigger] occupied@[j]).1 && end > occupied@[j].0),
        decreases occupied@.len() - i,
    {
        let (left, right) = occupied[i];
        if start < right && end > left {
            return true;
        }
        i = i + 1;
    }
    false
}

/// The text of the byte span `start..end` of `source`, shortened to 137
/// characters and `...` when it holds more than 140; empty when the span is not
/// a valid slice.
pub open spec fn snippet_of(source: Seq<char>, start: usize, end: usize) -> Seq<char> {
    let snippet = match byte_range_text(source, start as int, end as int) {
        Some(t) => t,
        None => Seq::empty(),
    };
    if snippet.len() <= 140 {
        snippet
    } else {
        snippet.take(137) + "..."@
    }
}

pub fn clip_snippet(source: &str, start: usize, end: usize) -> (r: String)
    ensures
        r@ == snippet_of(source@, start, end),
{
    let snippet = match str_byte_range(source, start, end) {
        Some(t) => t,
        None => String::new(),
    };
    let chars = str_chars(snippet.as_str());
    if chars.len() <= 140 {
        snippet
    } else {
        let mut v = crate::strings::sub_chars(chars.as_slice(), 0, 137);
        push_all(&mut v, chars_of("...").as_slice());
        string_from_chars(v.as_slice())
    }
}

/// Whether byte position `index` of `source` lies inside an HTML tag: the last
/// `<` before it comes after the last `>` before it.
pub open spec fn inside_tag(source: Seq<char>, index: usize) -> bool {
    let before = byte_range_text(source, 0, index as int).unwrap();
    match (find_last(before, '<'), find_last(before, '>')) {
        (Some(l), Some(r)) => l > r,
        (Some(_), None) => true,
        _ => false,
    }
}

/// Whether byte position `index` of `source` lies inside an HTML tag.
pub fn inside_html_tag(source: &str, index: usize) -> (b: bool)
    requires
        byte_range_text(source@, 0, index as int) is Some,
    ensures
        b == inside_tag(source@, index),
{
    let before = match str_byte_range(source, 0, index) {
        Some(t) => t,
        None => String::new(),
    };
    let chars = str_chars(before.as_str());
    let left = rfind_char(chars.as_slice(), '<');
    let right = rfind_char(chars.as_slice(), '>');
    match (left, right) {
        (Some(l), Some(r)) => l > r,
        (Some(_), None) => true,
        _ => false,
    }
}

/// The normalized path and fragment that a link of a scanned document names,
/// when it is root-relative or points at one of the internal domains.
pub open spec fn scan_href(href: Seq<char>, domains: Seq<Seq<char>>) -> Option<
    (Seq<char>, Option<Seq<char>>),
> {
    if starts_with(href, seq!['/']) {
        let (p, f) = split_fragment(href);
        Some((normalized_internal_path(p), f))
    } else {
        match url_parts_of(href) {
            None => None,
            Some(u) => match u.1 {
                None => None,
                Some(host) => if host_in_domains(domains, ascii_lower(host)) {
                    let path = match u.3 {
                        Some(q) => u.2 + seq!['?'] + q,
                        None => u.2,
                    };
                    Some((normalized_internal_path(path), u.4))
                } else {
                    None
                },
            },
        }
    }
}

/// The normalized path and fragment of an internal link.
pub fn normalize_scan_href(href: &[char], domains: &[String]) -> (r: Option<
    (Vec<char>, Option<Vec<char>>),
>)
    ensures
        match r {
            Some(p) => scan_href(href@, domains@.map_values(|d: String| d@)) == Some(
                (
                    p.0@,
                    match p.1 {
                        Some(f) => Some(f@),
                        None => None,
                    },
                ),
            ),
            None => scan_href(href@, domains@.map_values(|d: String| d@)) is None,
        },
{
    if href.len() > 0 && href[0] == '/' {
        proof {
            assert(href@.take(1) =~= seq!['/']);
        }
        let (p, f) = split_fragment_chars(href);
        return Some((normalize_internal_path(p.as_slice()), f));
    }
    proof {
        if href@.len() > 0 {
            assert(href@.take(1)[0] != seq!['/'][0]);
        }
    }
    let text = string_from_chars(href);
    let url = match parse_url(text.as_str()) {
        Some(u) => u,
        None => return None,
    };
    let host = match &url.host {
        Some(h) => ascii_lower_chars(str_chars(h.as_str()).as_slice()),
        None => return None,
    };
    if !host_matches(domains, host.as_slice()) {
        return None;
    }
    let mut path = str_chars(url.path.as_str());
    match &url.query {
        Some(q) => {
            path.push('?');
            push_all(&mut path, str_chars(q.as_str()).as_slice());
        },
        None => {},
    }
    let fragment = match &url.fragment {
        Some(f) => Some(str_chars(f.as_str())),
        None => None,
    };
    proof {
        let u = url.parts();
        assert(url_parts_of(href@) == Some(u));
        assert(u.1 == Some(url.host.unwrap()@));
        assert(host@ == ascii_lower(u.1.unwrap()));
        let spath = match u.3 {
            Some(q) => u.2 + seq!['?'] + q,
            None => u.2,
        };
        assert(path@ == spath);
        assert(u.4 == match fragment {
            Some(f) => Some(f@),
            None => None,
        });
    }
    Some((normalize_internal_path(path.as_slice()), fragment))
}

/// The lower-cased last path segment of a link, the key assets are matched by.
pub open spec fn lookup_key(href: Seq<char>) -> Option<Seq<char>> {
    let path = if starts_with(href, seq!['/']) {
        Some(href)
    } else {
        match url_parts_of(href) {
            Some(u) => if starts_with(u.2, seq!['/']) {
                Some(u.2)
            } else {
                None
            },
            None => None,
        }
    };
    match path {
        None => None,
        Some(p) => {
            let last = match find_last(p, '/') {
                Some(i) => p.skip(i as int + 1),
                None => p,
            };
            if last.len() > 0 {
                Some(ascii_lower(last))
            } else {
                None
            }
        },
    }
}

fn last_segment(p: &[char]) -> (r: Vec<char>)
    ensures
        r@ == (match find_last(p@, '/') {
            Some(i) => p@.skip(i as int + 1),
            None => p@,
        }),
{
    let n = p.len();
    match rfind_char(p, '/') {
        Some(i) => {
            proof {
                lemma_find_last_facts(p@, '/');
            }
            crate::strings::sub_chars(p, i + 1, n)
        },
        None => vstd::slice::slice_to_vec(p),
    }
}

/// The key under which an image link is matched against asset filenames.
pub fn asset_lookup_key(href: &[char]) -> (r: Option<Vec<char>>)
    ensures
        match r {
            Some(k) => lookup_key(href@) == Some(k@),
            None => lookup_key(href@) is None,
        },
{
    let path: Vec<char>;
    if href.len() > 0 && href[0] == '/' {
        proof {
            assert(href@.take(1) =~= seq!['/']);
        }
        path = vstd::slice::slice_to_vec(href);
    } else {
        proof {
            if href@.len() > 0 {
                assert(href@.take(1)[0] != seq!['/'][0]);
            }
        }
        let text = string_from_chars(href);
        match parse_url(text.as_str()) {
            Some(u) => {
                let p = str_chars(u.path.as_str());
                if p.len() > 0 && p[0] == '/' {
                    proof {
                        assert(p@.take(1) =~= seq!['/']);
                    }
                    path = p;
                } else {
                    proof {
                        if p@.len() > 0 {
                            assert(p@.take(1)[0] != seq!['/'][0]);
                        }
                    }
                    return None;
                }
            },
            None => return None,
        }
    }
    let last = last_segment(path.as_slice());
    if last.len() > 0 {
        Some(ascii_lower_chars(last.as_slice()))
    } else {
        None
    }
}

/// The absolute form of an `http` or `https` link, offered for import.
pub open spec fn remote_url_of(href: Seq<char>) -> Option<Seq<char>> {
    match url_parts_of(href) {
        Some(u) => if u.0 == "http"@ || u.0 == "https"@ {
            Some(u.5)
        } else {
            None
        },
        None => None,
    }
}

pub fn remote_image_url(href: &[char]) -> (r: Option<String>)
    ensures
        match r {
            Some(u) => remote_url_of(href@) == Some(u@),
            None => remote_url_of(href@) is None,
        },
{
    let text = string_from_chars(href);
    match parse_url(text.as_str()) {
        Some(u) => {
            if crate::strings::str_eq(u.scheme.as_str(), "http") || crate::strings::str_eq(
                u.scheme.as_str(),
                "https",
            ) {
                Some(u.serialized)
            } else {
                None
            }
        },
        None => None,
    }
}

} // verus!
