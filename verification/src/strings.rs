//! Text primitives over character sequences: trimming, searching, replacing,
//! case mapping and decimal numbers, each with the meaning of its std
//! counterpart stated over `Seq<char>`.
use crate::deps::byte_range_text;
use vstd::prelude::*;
use vstd::string::StringSliceAdditionalSpecFns;
use vstd::utf8::*;

verus! {

/// The Unicode `White_Space` property, as `char::is_whitespace` reads it.
pub open spec fn is_ws(c: char) -> bool {
    let u = c as u32;
    ||| (9 <= u && u <= 13)
    ||| u == 32
    ||| u == 0x85
    ||| u == 0xA0
    ||| u == 0x1680
    ||| (0x2000 <= u && u <= 0x200A)
    ||| u == 0x2028
    ||| u == 0x2029
    ||| u == 0x202F
    ||| u == 0x205F
    ||| u == 0x3000
}

pub fn char_is_ws(c: char) -> (b: bool)
    ensures
        b == is_ws(c),
{
    let u = c as u32;
    (9 <= u && u <= 13) || u == 32 || u == 0x85 || u == 0xA0 || u == 0x1680 || (0x2000 <= u && u
        <= 0x200A) || u == 0x2028 || u == 0x2029 || u == 0x202F || u == 0x205F || u == 0x3000
}

/// A set of characters that a trim removes.
pub enum CharPat {
    Ws,
    One(char),
    Any(Vec<char>),
}

impl CharPat {
    pub open spec fn has(&self, c: char) -> bool {
        match self {
            CharPat::Ws => is_ws(c),
            CharPat::One(x) => c == *x,
            CharPat::Any(v) => v@.contains(c),
        }
    }

    pub fn matches(&self, c: char) -> (b: bool)
        ensures
            b == self.has(c),
    {
        match self {
            CharPat::Ws => char_is_ws(c),
            CharPat::One(x) => c == *x,
            CharPat::Any(v) => {
                let mut i: usize = 0;
                while i < v.len()
                    invariant
                        self.has(c) == v@.contains(c),
                        0 <= i <= v@.len(),
                        forall|j: int| 0 <= j < i ==> v@[j] != c,
                    decreases v@.len() - i,
                {
                    if v[i] == c {
                        proof {
                            assert(v@[i as int] == c);
                        }
                        return true;
                    }
                    i = i + 1;
                }
                false
            },
        }
    }
}

/// Number of leading characters of `s` in `p`.
pub open spec fn lead_len(s: Seq<char>, p: CharPat) -> nat
    decreases s.len(),
{
    if s.len() > 0 && p.has(s[0]) {
        1 + lead_len(s.drop_first(), p)
    } else {
        0
    }
}

/// Number of trailing characters of `s` in `p`.
pub open spec fn trail_len(s: Seq<char>, p: CharPat) -> nat
    decreases s.len(),
{
    if s.len() > 0 && p.has(s.last()) {
        1 + trail_len(s.drop_last(), p)
    } else {
        0
    }
}

pub open spec fn trim_start(s: Seq<char>, p: CharPat) -> Seq<char> {
    s.skip(lead_len(s, p) as int)
}

pub open spec fn trim_end(s: Seq<char>, p: CharPat) -> Seq<char> {
    s.take(s.len() - trail_len(s, p))
}

/// `str::trim_matches` (and `str::trim` for `CharPat::Ws`).
pub open spec fn trim(s: Seq<char>, p: CharPat) -> Seq<char> {
    trim_end(trim_start(s, p), p)
}

pub open spec fn ws_trim(s: Seq<char>) -> Seq<char> {
    trim(s, CharPat::Ws)
}

pub proof fn lemma_lead_len_bound(s: Seq<char>, p: CharPat)
    ensures
        lead_len(s, p) <= s.len(),
        forall|j: int| 0 <= j < lead_len(s, p) ==> p.has(#[trigger] s[j]),
        lead_len(s, p) < s.len() ==> !p.has(s[lead_len(s, p) as int]),
    decreases s.len(),
{
    if s.len() > 0 && p.has(s[0]) {
        lemma_lead_len_bound(s.drop_first(), p);
        assert forall|j: int| 0 <= j < lead_len(s, p) implies p.has(#[trigger] s[j]) by {
            if j > 0 {
                assert(s[j] == s.drop_first()[j - 1]);
            }
        }
    }
}

pub proof fn lemma_trail_len_bound(s: Seq<char>, p: CharPat)
    ensures
        trail_len(s, p) <= s.len(),
        forall|j: int| s.len() - trail_len(s, p) <= j < s.len() ==> p.has(#[trigger] s[j]),
        trail_len(s, p) < s.len() ==> !p.has(s[s.len() - trail_len(s, p) - 1]),
    decreases s.len(),
{
    if s.len() > 0 && p.has(s.last()) {
        lemma_trail_len_bound(s.drop_last(), p);
        assert forall|j: int| s.len() - trail_len(s, p) <= j < s.len() implies p.has(
            #[trigger] s[j],
        ) by {
            if j < s.len() - 1 {
                assert(s[j] == s.drop_last()[j]);
            }
        }
    }
}

proof fn lemma_lead_len_is(s: Seq<char>, p: CharPat, i: int)
    requires
        0 <= i <= s.len(),
        forall|j: int| 0 <= j < i ==> p.has(#[trigger] s[j]),
        i == s.len() || !p.has(s[i]),
    ensures
        lead_len(s, p) == i,
    decreases i,
{
    if i > 0 {
        assert(p.has(s[0]));
        let t = s.drop_first();
        assert forall|j: int| 0 <= j < i - 1 implies p.has(#[trigger] t[j]) by {
            assert(t[j] == s[j + 1]);
        }
        if i < s.len() {
            assert(t[i - 1] == s[i]);
        }
        lemma_lead_len_is(t, p, i - 1);
    }
}

proof fn lemma_trail_len_is(s: Seq<char>, p: CharPat, k: int)
    requires
        0 <= k <= s.len(),
        forall|j: int| s.len() - k <= j < s.len() ==> p.has(#[trigger] s[j]),
        k == s.len() || !p.has(s[s.len() - k - 1]),
    ensures
        trail_len(s, p) == k,
    decreases k,
{
    if k > 0 {
        assert(p.has(s[s.len() - 1]));
        let t = s.drop_last();
        assert forall|j: int| t.len() - (k - 1) <= j < t.len() implies p.has(#[trigger] t[j]) by {
            assert(t[j] == s[j]);
        }
        if k < s.len() {
            assert(t[t.len() - (k - 1) - 1] == s[s.len() - k - 1]);
        }
        lemma_trail_len_is(t, p, k - 1);
    }
}

/// Index of the first character of `s` outside `p`.
pub fn lead_count(s: &[char], p: &CharPat) -> (n: usize)
    ensures
        n == lead_len(s@, *p),
{
    let mut i: usize = 0;
    while i < s.len() && p.matches(s[i])
        invariant
            0 <= i <= s@.len(),
            forall|j: int| 0 <= j < i ==> p.has(#[trigger] s@[j]),
        decreases s@.len() - i,
    {
        i = i + 1;
    }
    proof {
        lemma_lead_len_is(s@, *p, i as int);
    }
    i
}

/// Number of trailing characters of `s` in `p`.
pub fn trail_count(s: &[char], p: &CharPat) -> (n: usize)
    ensures
        n == trail_len(s@, *p),
{
    let mut k: usize = 0;
    while k < s.len() && p.matches(s[s.len() - 1 - k])
        invariant
            0 <= k <= s@.len(),
            forall|j: int| s@.len() - k <= j < s@.len() ==> p.has(#[trigger] s@[j]),
        decreases s@.len() - k,
    {
        k = k + 1;
    }
    proof {
        lemma_trail_len_is(s@, *p, k as int);
    }
    k
}

/// The bounds of `trim(s, p)` inside `s`.
pub fn trim_bounds(s: &[char], p: &CharPat) -> (r: (usize, usize))
    ensures
        r.0 <= r.1 <= s@.len(),
        s@.subrange(r.0 as int, r.1 as int) == trim(s@, *p),
        r.0 == lead_len(s@, *p),
{
    let a = lead_count(s, p);
    proof {
        lemma_lead_len_bound(s@, *p);
    }
    let rest = vstd::slice::slice_subrange(s, a, s.len());
    let k = trail_count(rest, p);
    proof {
        lemma_trail_len_bound(rest@, *p);
        assert(rest@ == trim_start(s@, *p));
        assert(s@.subrange(a as int, (s.len() - k) as int) =~= rest@.take(rest@.len() - k));
    }
    (a, s.len() - k)
}

/// Copies `s[from..to]` into a new vector.
pub fn sub_chars(s: &[char], from: usize, to: usize) -> (v: Vec<char>)
    requires
        from <= to <= s@.len(),
    ensures
        v@ == s@.subrange(from as int, to as int),
{
    let mut v: Vec<char> = Vec::new();
    let mut i = from;
    while i < to
        invariant
            from <= i <= to <= s@.len(),
            v@ == s@.subrange(from as int, i as int),
        decreases to - i,
    {
        v.push(s[i]);
        i = i + 1;
        proof {
            assert(v@ =~= s@.subrange(from as int, i as int));
        }
    }
    v
}

pub fn trim_chars(s: &[char], p: &CharPat) -> (v: Vec<char>)
    ensures
        v@ == trim(s@, *p),
{
    let (a, b) = trim_bounds(s, p);
    sub_chars(s, a, b)
}

pub fn trim_start_chars(s: &[char], p: &CharPat) -> (v: Vec<char>)
    ensures
        v@ == trim_start(s@, *p),
{
    let a = lead_count(s, p);
    proof {
        lemma_lead_len_bound(s@, *p);
    }
    sub_chars(s, a, s.len())
}

pub fn trim_end_chars(s: &[char], p: &CharPat) -> (v: Vec<char>)
    ensures
        v@ == trim_end(s@, *p),
{
    let k = trail_count(s, p);
    proof {
        lemma_trail_len_bound(s@, *p);
    }
    sub_chars(s, 0, s.len() - k)
}

/// Appends `t` to `v`.
pub fn push_all(v: &mut Vec<char>, t: &[char])
    ensures
        final(v)@ == old(v)@ + t@,
{
    let mut i: usize = 0;
    while i < t.len()
        invariant
            0 <= i <= t@.len(),
            v@ == old(v)@ + t@.take(i as int),
        decreases t@.len() - i,
    {
        v.push(t[i]);
        i = i + 1;
        proof {
            assert(v@ =~= old(v)@ + t@.take(i as int));
        }
    }
    proof {
        assert(t@.take(t@.len() as int) =~= t@);
    }
}

/// The characters of `s`.
pub fn str_chars(s: &str) -> (v: Vec<char>)
    ensures
        v@ == s@,
{
    let mut v: Vec<char> = Vec::new();
    for c in it: s.chars()
        invariant
            v@ == it.seq().take(it.index() as int),
            it.seq() == s@,
    {
        v.push(c);
    }
    v
}

/// `a == b` on string slices.
pub fn str_eq(a: &str, b: &str) -> (r: bool)
    ensures
        r == (a@ == b@),
{
    let x = str_chars(a);
    let y = str_chars(b);
    chars_eq(x.as_slice(), y.as_slice())
}

pub fn chars_eq(x: &[char], y: &[char]) -> (r: bool)
    ensures
        r == (x@ == y@),
{
    if x.len() != y.len() {
        return false;
    }
    let mut i: usize = 0;
    while i < x.len()
        invariant
            x@.len() == y@.len(),
            0 <= i <= x@.len(),
            forall|j: int| 0 <= j < i ==> x@[j] == y@[j],
        decreases x@.len() - i,
    {
        if x[i] != y[i] {
            return false;
        }
        i = i + 1;
    }
    proof {
        assert(x@ =~= y@);
    }
    true
}

/// The first index of `c` in `s`.
pub open spec fn find_first(s: Seq<char>, c: char) -> Option<nat>
    decreases s.len(),
{
    if s.len() == 0 {
        None
    } else if s[0] == c {
        Some(0)
    } else {
        match find_first(s.drop_first(), c) {
            Some(i) => Some(i + 1),
            None => None,
        }
    }
}

/// The last index of `c` in `s`.
pub open spec fn find_last(s: Seq<char>, c: char) -> Option<nat>
    decreases s.len(),
{
    if s.len() == 0 {
        None
    } else if s.last() == c {
        Some((s.len() - 1) as nat)
    } else {
        find_last(s.drop_last(), c)
    }
}

proof fn lemma_find_first_is(s: Seq<char>, c: char, i: int)
    requires
        0 <= i <= s.len(),
        forall|j: int| 0 <= j < i ==> s[j] != c,
    ensures
        i < s.len() && s[i] == c ==> find_first(s, c) == Some(i as nat),
        i == s.len() ==> find_first(s, c) is None,
    decreases i,
{
    if i > 0 {
        let t = s.drop_first();
        assert forall|j: int| 0 <= j < i - 1 implies t[j] != c by {
            assert(t[j] == s[j + 1]);
        }
        if i < s.len() {
            assert(t[i - 1] == s[i]);
        }
        lemma_find_first_is(t, c, i - 1);
    }
}

proof fn lemma_find_last_is(s: Seq<char>, c: char, k: int)
    requires
        0 <= k <= s.len(),
        forall|j: int| s.len() - k <= j < s.len() ==> s[j] != c,
    ensures
        k < s.len() && s[s.len() - k - 1] == c ==> find_last(s, c) == Some(
            (s.len() - k - 1) as nat,
        ),
        k == s.len() ==> find_last(s, c) is None,
    decreases k,
{
    if k > 0 {
        let t = s.drop_last();
        assert forall|j: int| t.len() - (k - 1) <= j < t.len() implies t[j] != c by {
            assert(t[j] == s[j]);
        }
        if k < s.len() {
            assert(t[t.len() - (k - 1) - 1] == s[s.len() - k - 1]);
        }
        lemma_find_last_is(t, c, k - 1);
    }
}

pub proof fn lemma_find_first_facts(s: Seq<char>, c: char)
    ensures
        find_first(s, c) matches Some(i) ==> i < s.len() && s[i as int] == c && forall|j: int|
            0 <= j < i ==> s[j] != c,
        find_first(s, c) is None ==> forall|j: int| 0 <= j < s.len() ==> s[j] != c,
    decreases s.len(),
{
    if s.len() > 0 && s[0] != c {
        let t = s.drop_first();
        lemma_find_first_facts(t, c);
        assert forall|j: int| 0 <= j < s.len() && find_first(s, c) is None implies s[j] != c by {
            if j > 0 {
                assert(s[j] == t[j - 1]);
            }
        }
        if let Some(i) = find_first(s, c) {
            assert forall|j: int| 0 <= j < i implies s[j] != c by {
                if j > 0 {
                    assert(s[j] == t[j - 1]);
                }
            }
        }
    }
}

pub proof fn lemma_find_last_facts(s: Seq<char>, c: char)
    ensures
        find_last(s, c) matches Some(i) ==> i < s.len() && s[i as int] == c && forall|j: int|
            i < j < s.len() ==> s[j] != c,
        find_last(s, c) is None ==> forall|j: int| 0 <= j < s.len() ==> s[j] != c,
    decreases s.len(),
{
    if s.len() > 0 && s.last() != c {
        let t = s.drop_last();
        lemma_find_last_facts(t, c);
        assert forall|j: int| 0 <= j < s.len() && find_last(s, c) is None implies s[j] != c by {
            if j < s.len() - 1 {
                assert(s[j] == t[j]);
            }
        }
        if let Some(i) = find_last(s, c) {
            assert forall|j: int| i < j < s.len() implies s[j] != c by {
                if j < s.len() - 1 {
                    assert(s[j] == t[j]);
                }
            }
        }
    }
}

/// `str::find` for a single character.
pub fn find_char(s: &[char], c: char) -> (r: Option<usize>)
    ensures
        r matches Some(i) ==> find_first(s@, c) == Some(i as nat),
        r is None ==> find_first(s@, c) is None,
{
    let mut i: usize = 0;
    while i < s.len()
        invariant
            0 <= i <= s@.len(),
            forall|j: int| 0 <= j < i ==> s@[j] != c,
        decreases s@.len() - i,
    {
        if s[i] == c {
            proof {
                lemma_find_first_is(s@, c, i as int);
            }
            return Some(i);
        }
        i = i + 1;
    }
    proof {
        lemma_find_first_is(s@, c, i as int);
    }
    None
}

/// `str::rfind` for a single character.
pub fn rfind_char(s: &[char], c: char) -> (r: Option<usize>)
    ensures
        r matches Some(i) ==> find_last(s@, c) == Some(i as nat),
        r is None ==> find_last(s@, c) is None,
{
    let mut k: usize = 0;
    while k < s.len()
        invariant
            0 <= k <= s@.len(),
            forall|j: int| s@.len() - k <= j < s@.len() ==> s@[j] != c,
        decreases s@.len() - k,
    {
        if s[s.len() - 1 - k] == c {
            proof {
                lemma_find_last_is(s@, c, k as int);
            }
            return Some(s.len() - 1 - k);
        }
        k = k + 1;
    }
    proof {
        lemma_find_last_is(s@, c, k as int);
    }
    None
}

/// `str::split_once` for a single character.
pub open spec fn split_once(s: Seq<char>, c: char) -> Option<(Seq<char>, Seq<char>)> {
    match find_first(s, c) {
        Some(i) => Some((s.take(i as int), s.skip(i as int + 1))),
        None => None,
    }
}

pub fn split_once_chars(s: &[char], c: char) -> (r: Option<(Vec<char>, Vec<char>)>)
    ensures
        r matches Some(p) ==> split_once(s@, c) == Some((p.0@, p.1@)),
        r is None ==> split_once(s@, c) is None,
{
    let n = s.len();
    match find_char(s, c) {
        Some(i) => {
            proof {
                lemma_find_first_facts(s@, c);
                assert(i < s@.len());
            }
            let a = sub_chars(s, 0, i);
            let b = sub_chars(s, i + 1, n);
            Some((a, b))
        },
        None => None,
    }
}

pub open spec fn starts_with(s: Seq<char>, pre: Seq<char>) -> bool {
    pre.len() <= s.len() && s.take(pre.len() as int) == pre
}

pub open spec fn ends_with(s: Seq<char>, suf: Seq<char>) -> bool {
    suf.len() <= s.len() && s.skip(s.len() - suf.len()) == suf
}

pub fn has_prefix(s: &[char], pre: &[char]) -> (b: bool)
    ensures
        b == starts_with(s@, pre@),
{
    if pre.len() > s.len() {
        return false;
    }
    let mut i: usize = 0;
    while i < pre.len()
        invariant
            pre@.len() <= s@.len(),
            0 <= i <= pre@.len(),
            forall|j: int| 0 <= j < i ==> s@[j] == pre@[j],
        decreases pre@.len() - i,
    {
        if s[i] != pre[i] {
            proof {
                assert(s@.take(pre@.len() as int)[i as int] != pre@[i as int]);
            }
            return false;
        }
        i = i + 1;
    }
    proof {
        assert(s@.take(pre@.len() as int) =~= pre@);
    }
    true
}

pub fn has_suffix(s: &[char], suf: &[char]) -> (b: bool)
    ensures
        b == ends_with(s@, suf@),
{
    if suf.len() > s.len() {
        return false;
    }
    let n = s.len();
    let off = n - suf.len();
    let mut i: usize = 0;
    while i < suf.len()
        invariant
            n == s@.len(),
            suf@.len() <= s@.len(),
            off == s@.len() - suf@.len(),
            0 <= i <= suf@.len(),
            forall|j: int| 0 <= j < i ==> s@[off + j] == suf@[j],
        decreases suf@.len() - i,
    {
        assert(off + i < s@.len());
        if s[off + i] != suf[i] {
            proof {
                assert(s@.skip(off as int)[i as int] != suf@[i as int]);
            }
            return false;
        }
        i = i + 1;
    }
    proof {
        assert(s@.skip(off as int) =~= suf@);
    }
    true
}

/// `str::replace` with a non-empty pattern: left to right, without overlaps.
pub open spec fn replace(s: Seq<char>, pat: Seq<char>, rep: Seq<char>) -> Seq<char>
    decreases s.len(),
{
    if pat.len() == 0 || s.len() < pat.len() {
        s
    } else if s.take(pat.len() as int) == pat {
        rep + replace(s.skip(pat.len() as int), pat, rep)
    } else {
        seq![s[0]] + replace(s.drop_first(), pat, rep)
    }
}

pub fn replace_chars(s: &[char], pat: &[char], rep: &[char]) -> (v: Vec<char>)
    requires
        pat@.len() > 0,
    ensures
        v@ == replace(s@, pat@, rep@),
{
    let mut v: Vec<char> = Vec::new();
    let mut i: usize = 0;
    proof {
        assert(s@.skip(0) =~= s@);
        assert(v@ + replace(s@.skip(0), pat@, rep@) =~= replace(s@, pat@, rep@));
    }
    while i < s.len()
        invariant
            0 <= i <= s@.len(),
            pat@.len() > 0,
            v@ + replace(s@.skip(i as int), pat@, rep@) == replace(s@, pat@, rep@),
        decreases s@.len() - i,
    {
        let ghost t = s@.skip(i as int);
        let rest = vstd::slice::slice_subrange(s, i, s.len());
        if pat.len() <= rest.len() && has_prefix(rest, pat) {
            proof {
                assert(t == rest@);
                assert(t.skip(pat@.len() as int) =~= s@.skip(i + pat@.len()));
            }
            push_all(&mut v, rep);
            i = i + pat.len();
            proof {
                assert(v@ + replace(s@.skip(i as int), pat@, rep@) =~= replace(s@, pat@, rep@));
            }
        } else {
            proof {
                assert(t == rest@);
                if t.len() < pat@.len() {
                    assert(replace(t, pat@, rep@) == t);
                    assert(t.drop_first() =~= s@.skip(i + 1));
                    assert(replace(t.drop_first(), pat@, rep@) == t.drop_first());
                    assert(t =~= seq![t[0]] + t.drop_first());
                } else {
                    assert(t.drop_first() =~= s@.skip(i + 1));
                }
            }
            v.push(s[i]);
            i = i + 1;
            proof {
                assert(v@ + replace(s@.skip(i as int), pat@, rep@) =~= replace(s@, pat@, rep@));
            }
        }
    }
    proof {
        assert(s@.skip(i as int) =~= Seq::<char>::empty());
        assert(v@ + replace(s@.skip(i as int), pat@, rep@) =~= v@);
    }
    v
}

pub open spec fn lower_ascii(c: char) -> char {
    if 'A' <= c && c <= 'Z' {
        ((c as u32) + 32) as char
    } else {
        c
    }
}

/// `str::to_ascii_lowercase`.
pub open spec fn ascii_lower(s: Seq<char>) -> Seq<char> {
    Seq::new(s.len(), |i: int| lower_ascii(s[i]))
}

pub fn lower_ascii_char(c: char) -> (r: char)
    ensures
        r == lower_ascii(c),
{
    if 'A' <= c && c <= 'Z' {
        let u = (c as u32) + 32;
        proof {
            assert(0x41 + 32 <= u <= 0x5a + 32);
        }
        char_from_ascii(u)
    } else {
        c
    }
}

/// An ASCII code point as a `char`.
fn char_from_ascii(u: u32) -> (c: char)
    requires
        u < 128,
    ensures
        c == u as char,
{
    let b = u as u8;
    b as char
}

pub fn ascii_lower_chars(s: &[char]) -> (v: Vec<char>)
    ensures
        v@ == ascii_lower(s@),
{
    let mut v: Vec<char> = Vec::new();
    let mut i: usize = 0;
    while i < s.len()
        invariant
            0 <= i <= s@.len(),
            v@.len() == i,
            forall|j: int| 0 <= j < i ==> v@[j] == lower_ascii(s@[j]),
        decreases s@.len() - i,
    {
        v.push(lower_ascii_char(s[i]));
        i = i + 1;
    }
    proof {
        assert(v@ =~= ascii_lower(s@));
    }
    v
}

pub open spec fn is_ascii_digit(c: char) -> bool {
    '0' <= c && c <= '9'
}

pub open spec fn is_ascii_alnum(c: char) -> bool {
    ||| ('0' <= c && c <= '9')
    ||| ('a' <= c && c <= 'z')
    ||| ('A' <= c && c <= 'Z')
}

pub fn char_is_ascii_alnum(c: char) -> (b: bool)
    ensures
        b == is_ascii_alnum(c),
{
    ('0' <= c && c <= '9') || ('a' <= c && c <= 'z') || ('A' <= c && c <= 'Z')
}

pub open spec fn digit_char(d: nat) -> char {
    ((d + 48) as u32) as char
}

/// The decimal form of `n`, as `usize`'s `Display` writes it.
pub open spec fn decimal(n: nat) -> Seq<char>
    decreases n,
{
    if n < 10 {
        seq![digit_char(n)]
    } else {
        decimal(n / 10) + seq![digit_char(n % 10)]
    }
}

fn digit_to_char(d: u64) -> (c: char)
    requires
        d < 10,
    ensures
        c == digit_char(d as nat),
{
    char_from_ascii((d + 48) as u32)
}

/// The decimal digits of `n`.
pub fn decimal_chars(n: u64) -> (v: Vec<char>)
    ensures
        v@ == decimal(n as nat),
    decreases n,
{
    if n < 10 {
        let mut v: Vec<char> = Vec::new();
        v.push(digit_to_char(n));
        proof {
            assert(v@ =~= decimal(n as nat));
        }
        v
    } else {
        let mut v = decimal_chars(n / 10);
        v.push(digit_to_char(n % 10));
        proof {
            assert(v@ =~= decimal(n as nat));
        }
        v
    }
}

pub open spec fn digit_value(c: char) -> nat {
    ((c as u32) - 48) as nat
}

/// The value of a string of ASCII digits.
pub open spec fn digits_value(s: Seq<char>) -> nat
    decreases s.len(),
{
    if s.len() == 0 {
        0
    } else {
        digits_value(s.drop_last()) * 10 + digit_value(s.last())
    }
}

pub open spec fn all_digits(s: Seq<char>) -> bool {
    forall|i: int| 0 <= i < s.len() ==> is_ascii_digit(#[trigger] s[i])
}

/// `str::parse::<usize>`: an optional `+` and at least one digit, whose value fits.
pub open spec fn parse_usize(s: Seq<char>) -> Option<nat> {
    let d = if s.len() > 0 && s[0] == '+' {
        s.drop_first()
    } else {
        s
    };
    if d.len() > 0 && all_digits(d) && digits_value(d) <= usize::MAX {
        Some(digits_value(d))
    } else {
        None
    }
}

proof fn lemma_digits_value_mono(s: Seq<char>, i: int)
    requires
        0 <= i <= s.len(),
        all_digits(s),
    ensures
        digits_value(s.take(i)) <= digits_value(s),
    decreases s.len() - i,
{
    if i < s.len() {
        lemma_digits_value_mono(s, i + 1);
        assert(s.take(i + 1).drop_last() =~= s.take(i));
        assert(is_ascii_digit(s[i]));
    } else {
        assert(s.take(i) =~= s);
    }
}

pub fn parse_usize_chars(s: &[char]) -> (r: Option<usize>)
    ensures
        r matches Some(n) ==> parse_usize(s@) == Some(n as nat),
        r is None ==> parse_usize(s@) is None,
{
    let start: usize = if s.len() > 0 && s[0] == '+' {
        1
    } else {
        0
    };
    let ghost d = if s@.len() > 0 && s@[0] == '+' {
        s@.drop_first()
    } else {
        s@
    };
    proof {
        assert(d =~= s@.skip(start as int));
    }
    if start >= s.len() {
        return None;
    }
    let mut acc: usize = 0;
    let mut i: usize = start;
    while i < s.len()
        invariant
            start <= i <= s@.len(),
            d == s@.skip(start as int),
            d == (if s@.len() > 0 && s@[0] == '+' {
                s@.drop_first()
            } else {
                s@
            }),
            forall|j: int| start <= j < i ==> is_ascii_digit(#[trigger] s@[j]),
            acc as nat == digits_value(s@.subrange(start as int, i as int)),
        decreases s@.len() - i,
    {
        let c = s[i];
        if !('0' <= c && c <= '9') {
            proof {
                assert(d[i - start] == c);
                assert(!is_ascii_digit(d[i - start]));
                assert(!all_digits(d));
                assert(parse_usize(s@) is None);
            }
            return None;
        }
        let dv = (c as u32 - 48) as usize;
        proof {
            assert(s@.subrange(start as int, i + 1).drop_last() =~= s@.subrange(
                start as int,
                i as int,
            ));
        }
        if acc > (usize::MAX - dv) / 10 {
            proof {
                assert(acc * 10 + dv > usize::MAX) by (nonlinear_arith)
                    requires
                        acc > (usize::MAX - dv) / 10,
                        dv <= 9,
                ;
                // The digits so far already exceed the limit; later digits only grow the value.
                let t = s@.subrange(start as int, i + 1);
                assert(digits_value(t) == acc * 10 + dv);
                assert(t.last() == c);
                assert(d.len() > 0);
                if all_digits(d) {
                    assert(d.take(i + 1 - start) =~= t);
                    lemma_digits_value_mono(d, i + 1 - start);
                    assert(digits_value(d) > usize::MAX);
                }
                assert(parse_usize(s@) is None);
            }
            return None;
        }
        acc = acc * 10 + dv;
        i = i + 1;
    }
    proof {
        assert(s@.subrange(start as int, i as int) =~= d);
        assert(all_digits(d)) by {
            assert forall|j: int| 0 <= j < d.len() implies is_ascii_digit(#[trigger] d[j]) by {
                assert(d[j] == s@[j + start]);
            }
        }
    }
    Some(acc)
}

} // verus!

verus! {

/// The parts joined by `sep`, as `[String]::join` does.
pub open spec fn join(parts: Seq<Seq<char>>, sep: Seq<char>) -> Seq<char>
    decreases parts.len(),
{
    if parts.len() == 0 {
        Seq::empty()
    } else if parts.len() == 1 {
        parts[0]
    } else {
        join(parts.drop_last(), sep) + sep + parts.last()
    }
}

/// The parts one after another.
pub open spec fn concat(parts: Seq<Seq<char>>) -> Seq<char>
    decreases parts.len(),
{
    if parts.len() == 0 {
        Seq::empty()
    } else {
        concat(parts.drop_last()) + parts.last()
    }
}

/// `n` zero characters.
pub open spec fn zeros(n: int) -> Seq<char> {
    Seq::new(if n > 0 { n as nat } else { 0 }, |i: int| '0')
}

/// `format!("{:0w$}", n)` for an integer `n`.
pub open spec fn pad_decimal(n: int, w: int) -> Seq<char> {
    let digits = decimal(if n < 0 { (-n) as nat } else { n as nat });
    let sign: Seq<char> = if n < 0 { seq!['-'] } else { Seq::empty() };
    sign + zeros(w - sign.len() - digits.len()) + digits
}

/// `format!("{:0w$}", n)` for a 64-bit integer.
pub fn pad_decimal_chars(n: i64, w: usize) -> (v: Vec<char>)
    ensures
        v@ == pad_decimal(n as int, w as int),
{
    let mag: u64 = if n < 0 {
        if n == i64::MIN {
            9223372036854775808u64
        } else {
            (-n) as u64
        }
    } else {
        n as u64
    };
    let digits = decimal_chars(mag);
    let mut v: Vec<char> = Vec::new();
    if n < 0 {
        v.push('-');
    }
    let ghost sign: Seq<char> = if n < 0 { seq!['-'] } else { Seq::empty() };
    let slen = v.len();
    let dlen = digits.len();
    let z: usize = if w > slen && w - slen > dlen {
        w - slen - dlen
    } else {
        0
    };
    proof {
        assert(v@ =~= sign);
        assert(sign + zeros(0) =~= sign);
    }
    let mut k: usize = 0;
    while k < z
        invariant
            k <= z,
            v@ == sign + zeros(k as int),
        decreases z - k,
    {
        v.push('0');
        k = k + 1;
        proof {
            assert(v@ =~= sign + zeros(k as int));
        }
    }
    push_all(&mut v, digits.as_slice());
    proof {
        assert(zeros(z as int) =~= zeros(w - sign.len() - digits@.len()));
    }
    v
}

/// Characters from a string slice followed by more characters.
pub fn chars_of(s: &str) -> (v: Vec<char>)
    ensures
        v@ == s@,
{
    str_chars(s)
}

/// The text between the UTF-8 byte offsets `start` and `end` of `s`, as
/// `str::get(start..end)` gives it: there when both ends are in range, in order
/// and on character boundaries.
pub fn str_byte_range(s: &str, start: usize, end: usize) -> (r: Option<String>)
    ensures
        r.deep_view() == byte_range_text(s@, start as int, end as int),
{
    broadcast use encode_utf8_valid_utf8, encode_utf8_decode_utf8;

    let n = s.as_bytes().len();
    if start <= end && end <= n && s.is_char_boundary(start) && s.is_char_boundary(end) {
        let (_, rest) = s.split_at(start);
        let ghost bytes = s.spec_bytes();
        let ghost rb = rest.spec_bytes();
        let k = end - start;
        proof {
            assert(rb =~= bytes.subrange(start as int, n as int));
            if k == 0 {
            } else if end == n {
                is_char_boundary_start_end_of_seq(rb);
                assert(k == rb.len());
            } else {
                is_char_boundary_iff_not_is_continuation_byte(bytes, end as int);
                is_char_boundary_iff_not_is_continuation_byte(rb, k as int);
                assert(rb[k as int] == bytes[end as int]);
            }
        }
        let (mid, _) = rest.split_at(k);
        proof {
            assert(mid.spec_bytes() =~= bytes.subrange(start as int, end as int));
            assert(decode_utf8(encode_utf8(mid@)) == mid@);
        }
        Some(mid.to_string())
    } else {
        None
    }
}

} // verus!
