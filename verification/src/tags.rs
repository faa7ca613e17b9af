//! Tag names given for content, and how a content item's tag links change to
//! match a wanted set.
use crate::deps::string_from_chars;
use crate::strings::{str_chars, str_eq, trim, trim_chars, CharPat};
use vstd::prelude::*;

verus! {

pub open spec fn texts(s: Seq<String>) -> Seq<Seq<char>> {
    s.map_values(|t: String| t@)
}

/// The tag names, trimmed, without blank ones and repeats, in order of first use.
pub open spec fn distinct_tags(names: Seq<Seq<char>>) -> Seq<Seq<char>>
    decreases names.len(),
{
    if names.len() == 0 {
        Seq::empty()
    } else {
        let prev = distinct_tags(names.drop_last());
        let t = trim(names.last(), CharPat::Ws);
        if t.len() == 0 || prev.contains(t) {
            prev
        } else {
            prev.push(t)
        }
    }
}

/// The tag names that a tag assignment uses: trimmed, blank ones and repeats
/// dropped.
pub fn distinct_tag_names(names: &[String]) -> (r: Vec<String>)
    ensures
        texts(r@) == distinct_tags(texts(names@)),
{
    let ghost ns = texts(names@);
    let mut out: Vec<String> = Vec::new();
    let mut i: usize = 0;
    proof {
        assert(ns.take(0) =~= Seq::<Seq<char>>::empty());
        assert(texts(out@) =~= Seq::<Seq<char>>::empty());
    }
    while i < names.len()
        invariant
            0 <= i <= names@.len(),
            ns == texts(names@),
            texts(out@) == distinct_tags(ns.take(i as int)),
        decreases names@.len() - i,
    {
        proof {
            assert(ns.take(i + 1).drop_last() =~= ns.take(i as int));
            assert(ns.take(i + 1).last() == names@[i as int]@);
        }
        let t = trim_chars(str_chars(names[i].as_str()).as_slice(), &CharPat::Ws);
        if t.len() > 0 {
            let ts = string_from_chars(t.as_slice());
            let ghost prev = texts(out@);
            let mut seen = false;
            let mut j: usize = 0;
            while j < out.len()
                invariant
                    0 <= j <= out@.len(),
                    prev == texts(out@),
                    ts@ == t@,
                    seen == exists|k: int| 0 <= k < j && prev[k] == t@,
                decreases out@.len() - j,
            {
                proof {
                    assert(prev[j as int] == out@[j as int]@);
                }
                if str_eq(out[j].as_str(), ts.as_str()) {
                    seen = true;
                }
                j = j + 1;
            }
            proof {
                if prev.contains(t@) {
                    let k = choose|k: int| 0 <= k < prev.len() && prev[k] == t@;
                    assert(0 <= k < j);
                }
            }
            if !seen {
                out.push(ts);
                proof {
                    assert(texts(out@) =~= prev.push(t@));
                }
            }
        }
        i = i + 1;
    }
    proof {
        assert(ns.take(i as int) =~= ns);
    }
    out
}

/// The links to remove: those whose tag is not wanted, in order.
pub open spec fn unwanted(links: Seq<Seq<char>>, wanted: Seq<Seq<char>>) -> Seq<Seq<char>>
    decreases links.len(),
{
    if links.len() == 0 {
        Seq::empty()
    } else {
        let prev = unwanted(links.drop_last(), wanted);
        if wanted.contains(links.last()) {
            prev
        } else {
            prev.push(links.last())
        }
    }
}

/// The wanted tags that no link has yet, in order.
pub open spec fn missing(wanted: Seq<Seq<char>>, links: Seq<Seq<char>>) -> Seq<Seq<char>> {
    unwanted(wanted, links)
}

proof fn lemma_unwanted_contains(links: Seq<Seq<char>>, wanted: Seq<Seq<char>>, x: Seq<char>)
    ensures
        unwanted(links, wanted).contains(x) <==> (links.contains(x) && !wanted.contains(x)),
    decreases links.len(),
{
    if links.len() > 0 {
        lemma_unwanted_contains(links.drop_last(), wanted, x);
        let d = links.drop_last();
        assert(links =~= d.push(links.last()));
        if links.contains(x) && !d.contains(x) {
            let k = choose|k: int| 0 <= k < links.len() && links[k] == x;
            if k < d.len() {
                assert(d[k] == x);
            }
        }
        if d.contains(x) {
            let k = choose|k: int| 0 <= k < d.len() && d[k] == x;
            assert(links[k] == x);
        }
        let p = unwanted(d, wanted);
        if !wanted.contains(links.last()) {
            if p.push(links.last()).contains(x) && !p.contains(x) {
                let k = choose|k: int| 0 <= k < p.len() + 1 && p.push(links.last())[k] == x;
                assert(k == p.len());
            }
            if p.contains(x) {
                let k = choose|k: int| 0 <= k < p.len() && p[k] == x;
                assert(p.push(links.last())[k] == x);
            }
            if x == links.last() {
                assert(p.push(links.last())[p.len() as int] == x);
            }
        }
    }
}

/// Syncing a content item's tag links to a wanted set leaves exactly the
/// wanted tags: keeping the links not removed and adding the missing ones
/// gives every wanted tag and no other.
pub proof fn sync_reaches_wanted(links: Seq<Seq<char>>, wanted: Seq<Seq<char>>, x: Seq<char>)
    ensures
        ((links.contains(x) && !unwanted(links, wanted).contains(x)) || missing(wanted, links).contains(
            x,
        )) <==> wanted.contains(x),
{
    lemma_unwanted_contains(links, wanted, x);
    lemma_unwanted_contains(wanted, links, x);
}

/// The tag links to remove when a content item's tags are synced to a wanted
/// set: those whose tag is not wanted.
pub fn tag_links_to_remove(link_tags: &[String], wanted: &[String]) -> (r: Vec<String>)
    ensures
        texts(r@) == unwanted(texts(link_tags@), texts(wanted@)),
{
    let ghost ls = texts(link_tags@);
    let ghost ws = texts(wanted@);
    let mut out: Vec<String> = Vec::new();
    let mut i: usize = 0;
    proof {
        assert(ls.take(0) =~= Seq::<Seq<char>>::empty());
        assert(texts(out@) =~= Seq::<Seq<char>>::empty());
    }
    while i < link_tags.len()
        invariant
            0 <= i <= link_tags@.len(),
            ls == texts(link_tags@),
            ws == texts(wanted@),
            texts(out@) == unwanted(ls.take(i as int), ws),
        decreases link_tags@.len() - i,
    {
        proof {
            assert(ls.take(i + 1).drop_last() =~= ls.take(i as int));
            assert(ls.take(i + 1).last() == link_tags@[i as int]@);
        }
        let mut found = false;
        let mut j: usize = 0;
        while j < wanted.len()
            invariant
                0 <= j <= wanted@.len(),
                i < link_tags@.len(),
                ws == texts(wanted@),
                found == exists|k: int| 0 <= k < j && ws[k] == link_tags@[i as int]@,
            decreases wanted@.len() - j,
        {
            proof {
                assert(ws[j as int] == wanted@[j as int]@);
            }
            if str_eq(wanted[j].as_str(), link_tags[i].as_str()) {
                found = true;
            }
            j = j + 1;
        }
        proof {
            if ws.contains(link_tags@[i as int]@) {
                let k = choose|k: int| 0 <= k < ws.len() && ws[k] == link_tags@[i as int]@;
                assert(0 <= k < j);
            }
        }
        if !found {
            let ghost before = texts(out@);
            out.push(link_tags[i].clone());
            proof {
                assert(texts(out@) =~= before.push(link_tags@[i as int]@));
            }
        }
        i = i + 1;
    }
    proof {
        assert(ls.take(i as int) =~= ls);
    }
    out
}

} // verus!
