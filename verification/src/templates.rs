//! Where a site's templates are looked for: the bundled template roots and,
//! when a template is missing from its site's template directory, the files
//! that stand in for it, in the order they are tried.
use crate::deps::{
    path_file_name, path_file_name_of, path_join, path_join_of, path_parent, path_parent_of,
};
use crate::strings::{has_suffix, str_chars, str_eq, ends_with};
use crate::tags::texts;
use vstd::prelude::*;

verus! {

/// The directory of the bundled site templates, relative to the working directory.
pub const SITE_TEMPLATES_DIR: &'static str = "./site_templates/";

/// A list of paths with one more added, unless it is there already.
pub open spec fn with_path(list: Seq<Seq<char>>, p: Seq<char>) -> Seq<Seq<char>> {
    if list.contains(p) {
        list
    } else {
        list.push(p)
    }
}

/// A list of paths with each of `ps` added in turn, unless already there.
pub open spec fn with_paths(list: Seq<Seq<char>>, ps: Seq<Seq<char>>) -> Seq<Seq<char>>
    decreases ps.len(),
{
    if ps.len() == 0 {
        list
    } else {
        with_path(with_paths(list, ps.drop_last()), ps.last())
    }
}

/// Keeps the first occurrence of each path, in order.
pub fn push_unique_path(paths: &mut Vec<String>, path: String)
    ensures
        texts(final(paths)@) == with_path(texts(old(paths)@), path@),
        if texts(old(paths)@).contains(path@) {
            final(paths)@ == old(paths)@
        } else {
            final(paths)@ == old(paths)@.push(path)
        },
{
    let ghost before = paths@;
    let mut i: usize = 0;
    while i < paths.len()
        invariant
            0 <= i <= paths@.len(),
            paths@ == before,
            forall|j: int| 0 <= j < i ==> (#[trigger] paths@[j])@ != path@,
        decreases paths@.len() - i,
    {
        if str_eq(paths[i].as_str(), path.as_str()) {
            proof {
                assert(texts(paths@)[i as int] == path@);
            }
            return;
        }
        i = i + 1;
    }
    proof {
        if texts(paths@).contains(path@) {
            let ps = texts(paths@);
            let j = choose|j: int| 0 <= j < ps.len() && #[trigger] ps[j] == path@;
            assert(paths@[j]@ == path@);
        }
    }
    paths.push(path);
    proof {
        assert(texts(paths@) =~= texts(before).push(path@));
    }
}

/// The paths, each once, in order of first appearance.
fn unique_paths(candidates: Vec<String>) -> (r: Vec<String>)
    ensures
        texts(r@) == with_paths(Seq::empty(), texts(candidates@)),
{
    let ghost all = candidates@;
    let mut out: Vec<String> = Vec::new();
    let mut rest = candidates;
    let n: usize = rest.len();
    let mut k: usize = 0;
    proof {
        assert(texts(all.take(0)) =~= Seq::<Seq<char>>::empty());
        assert(texts(out@) =~= Seq::<Seq<char>>::empty());
        assert(rest@ =~= all.skip(0));
    }
    while rest.len() > 0
        invariant
            k + rest@.len() == all.len(),
            all.len() == n,
            rest@ == all.skip(k as int),
            texts(out@) == with_paths(Seq::empty(), texts(all.take(k as int))),
        decreases rest@.len(),
    {
        let p = rest.remove(0);
        proof {
            assert(p == all[k as int]);
            assert(rest@ =~= all.skip(k + 1));
            assert(texts(all.take(k + 1)).drop_last() =~= texts(all.take(k as int)));
            assert(texts(all.take(k + 1)).last() == p@);
        }
        push_unique_path(&mut out, p);
        k = k + 1;
    }
    proof {
        assert(all.take(k as int) =~= all);
    }
    out
}

/// The roots under which bundled site templates are looked for, each once: the
/// configured directory, `/site_templates`, `site_templates` beside the
/// executable and beside its directory, and `site_templates` in the source tree.
pub open spec fn bundled_roots_of(exe_dir: Option<Seq<char>>, manifest_dir: Seq<char>) -> Seq<Seq<char>> {
    let beside_exe: Seq<Seq<char>> = match exe_dir {
        Some(d) => match path_parent_of(d) {
            Some(p) => seq![path_join_of(d, "site_templates"@), path_join_of(p, "site_templates"@)],
            None => seq![path_join_of(d, "site_templates"@)],
        },
        None => Seq::empty(),
    };
    with_paths(
        Seq::empty(),
        seq!["./site_templates/"@, "/site_templates"@] + beside_exe + seq![
            path_join_of(manifest_dir, "site_templates"@),
        ],
    )
}

/// The roots of the bundled site templates, given the directory of the running
/// executable, if known, and the source tree's directory.
pub fn bundled_site_templates_roots(exe_dir: Option<&str>, manifest_dir: &str) -> (r: Vec<String>)
    ensures
        texts(r@) == bundled_roots_of(
            match exe_dir {
                Some(d) => Some(d@),
                None => None,
            },
            manifest_dir@,
        ),
{
    let mut cands: Vec<String> = Vec::new();
    cands.push(SITE_TEMPLATES_DIR.to_string());
    cands.push("/site_templates".to_string());
    let ghost head = texts(cands@);
    match exe_dir {
        Some(d) => {
            cands.push(path_join(d, "site_templates"));
            match path_parent(d) {
                Some(p) => cands.push(path_join(p.as_str(), "site_templates")),
                None => {},
            }
        },
        None => {},
    }
    let ghost mid = texts(cands@);
    cands.push(path_join(manifest_dir, "site_templates"));
    proof {
        let e = match exe_dir {
            Some(d) => Some(d@),
            None => None,
        };
        let beside_exe: Seq<Seq<char>> = match e {
            Some(d) => match path_parent_of(d) {
                Some(p) => seq![path_join_of(d, "site_templates"@), path_join_of(p, "site_templates"@)],
                None => seq![path_join_of(d, "site_templates"@)],
            },
            None => Seq::empty(),
        };
        assert(head =~= seq!["./site_templates/"@, "/site_templates"@]);
        assert(mid =~= head + beside_exe);
        assert(texts(cands@) =~= seq!["./site_templates/"@, "/site_templates"@] + beside_exe + seq![
            path_join_of(manifest_dir@, "site_templates"@),
        ]);
    }
    unique_paths(cands)
}

/// The directory of a site's template overrides under the upload root:
/// `.site-template-overrides/<site id>`.
pub fn template_override_root(upload_root: &str, site_id: &str) -> (r: String)
    ensures
        r@ == path_join_of(path_join_of(upload_root@, ".site-template-overrides"@), site_id@),
{
    let dir = path_join(upload_root, ".site-template-overrides");
    path_join(dir.as_str(), site_id)
}

/// The template files that a site may override: those that rendering loads
/// by name (the required templates) and the base template they extend.
pub open spec fn customizable_template_files() -> Seq<Seq<char>> {
    seq![
        "index.html"@,
        "post.html"@,
        "page.html"@,
        "tag.html"@,
        "rss.xml"@,
        "atom.xml"@,
        "base_template.html"@,
    ]
}

/// Whether a site may override the template file of this name.
pub fn is_customizable_template_file(filename: &str) -> (b: bool)
    ensures
        b == customizable_template_files().contains(filename@),
{
    let names: [&str; 7] = [
        "index.html",
        "post.html",
        "page.html",
        "tag.html",
        "rss.xml",
        "atom.xml",
        "base_template.html",
    ];
    let mut i: usize = 0;
    while i < 7
        invariant
            0 <= i <= 7,
            forall|k: int| 0 <= k < 7 ==> (#[trigger] names@[k])@ == customizable_template_files()[k],
            forall|k: int| 0 <= k < i ==> customizable_template_files()[k] != filename@,
        decreases 7 - i,
    {
        if str_eq(names[i], filename) {
            proof {
                assert(customizable_template_files()[i as int] == filename@);
            }
            return true;
        }
        i = i + 1;
    }
    proof {
        if customizable_template_files().contains(filename@) {
            let k = choose|k: int| 0 <= k < 7 && customizable_template_files()[k] == filename@;
            assert(customizable_template_files()[k] != filename@);
        }
    }
    false
}

/// A template file in a directory under a root.
pub open spec fn template_in(root: Seq<char>, dir: Seq<char>, filename: Seq<char>) -> Seq<char> {
    path_join_of(path_join_of(root, dir), filename)
}

/// The files that stand in for a template missing from a site's template
/// directory, each once, in the order they are tried: the same template set
/// under each bundled root, then the `default` set beside the site's template
/// directory, then the `default` set under each bundled root.
pub open spec fn fallback_paths_of(template_root: Seq<char>, filename: Seq<char>, roots: Seq<Seq<char>>) -> Seq<
    Seq<char>,
> {
    let named: Seq<Seq<char>> = match path_file_name_of(template_root) {
        Some(n) => roots.map_values(|r: Seq<char>| template_in(r, n, filename)),
        None => Seq::empty(),
    };
    let base = match path_parent_of(template_root) {
        Some(p) => p,
        None => template_root,
    };
    let defaults = roots.map_values(|r: Seq<char>| template_in(r, "default"@, filename));
    with_paths(Seq::empty(), named + seq![template_in(base, "default"@, filename)] + defaults)
}

/// The files tried, in order, for a template missing from the site's template
/// directory `template_root`.
pub fn template_fallback_paths(template_root: &str, filename: &str, bundled_roots: &[String]) -> (r: Vec<
    String,
>)
    ensures
        texts(r@) == fallback_paths_of(template_root@, filename@, texts(bundled_roots@)),
{
    let ghost roots = texts(bundled_roots@);
    let mut cands: Vec<String> = Vec::new();
    let name = path_file_name(template_root);
    let ghost named: Seq<Seq<char>> = match path_file_name_of(template_root@) {
        Some(n) => roots.map_values(|r: Seq<char>| template_in(r, n, filename@)),
        None => Seq::empty(),
    };
    match name {
        Some(n) => {
            let mut i: usize = 0;
            while i < bundled_roots.len()
                invariant
                    0 <= i <= bundled_roots@.len(),
                    roots == texts(bundled_roots@),
                    path_file_name_of(template_root@) == Some(n@),
                    named == roots.map_values(|r: Seq<char>| template_in(r, n@, filename@)),
                    texts(cands@) == named.take(i as int),
                decreases bundled_roots@.len() - i,
            {
                let dir = path_join(bundled_roots[i].as_str(), n.as_str());
                let ghost before = cands@;
                let f = path_join(dir.as_str(), filename);
                cands.push(f);
                proof {
                    assert(texts(cands@) =~= texts(before).push(f@));
                    assert(roots[i as int] == bundled_roots@[i as int]@);
                    assert(texts(cands@) =~= named.take(i + 1));
                }
                i = i + 1;
            }
            proof {
                assert(named.take(bundled_roots@.len() as int) =~= named);
            }
        },
        None => {
            proof {
                assert(texts(cands@) =~= named);
            }
        },
    }
    let ghost after_named = texts(cands@);
    let base = match path_parent(template_root) {
        Some(p) => p,
        None => template_root.to_string(),
    };
    let dir = path_join(base.as_str(), "default");
    cands.push(path_join(dir.as_str(), filename));
    let ghost after_conf = texts(cands@);
    let ghost defaults = roots.map_values(|r: Seq<char>| template_in(r, "default"@, filename@));
    proof {
        assert(after_conf =~= after_named.push(template_in(base@, "default"@, filename@)));
    }
    let mut j: usize = 0;
    while j < bundled_roots.len()
        invariant
            0 <= j <= bundled_roots@.len(),
            roots == texts(bundled_roots@),
            defaults == roots.map_values(|r: Seq<char>| template_in(r, "default"@, filename@)),
            texts(cands@) == after_conf + defaults.take(j as int),
        decreases bundled_roots@.len() - j,
    {
        let dir = path_join(bundled_roots[j].as_str(), "default");
        let ghost before = cands@;
        let f = path_join(dir.as_str(), filename);
        cands.push(f);
        proof {
            assert(texts(cands@) =~= texts(before).push(f@));
            assert(roots[j as int] == bundled_roots@[j as int]@);
            assert(texts(cands@) =~= after_conf + defaults.take(j + 1));
        }
        j = j + 1;
    }
    proof {
        assert(defaults.take(bundled_roots@.len() as int) =~= defaults);
        let base_s = match path_parent_of(template_root@) {
            Some(p) => p,
            None => template_root@,
        };
        assert(base@ == base_s);
        assert(texts(cands@) =~= named + seq![template_in(base_s, "default"@, filename@)] + defaults);
    }
    unique_paths(cands)
}

/// Whether a file found in a site's template directory is loaded as a
/// template: one not loaded yet whose name ends in `.html` or `.xml`.
pub fn should_load_template(filename: &str, loaded: &[String]) -> (b: bool)
    ensures
        b == (!texts(loaded@).contains(filename@) && (ends_with(filename@, ".html"@) || ends_with(
            filename@,
            ".xml"@,
        ))),
{
    let mut i: usize = 0;
    while i < loaded.len()
        invariant
            0 <= i <= loaded@.len(),
            forall|j: int| 0 <= j < i ==> (#[trigger] loaded@[j])@ != filename@,
        decreases loaded@.len() - i,
    {
        if str_eq(loaded[i].as_str(), filename) {
            proof {
                assert(texts(loaded@)[i as int] == filename@);
            }
            return false;
        }
        i = i + 1;
    }
    proof {
        if texts(loaded@).contains(filename@) {
            let ls = texts(loaded@);
            let j = choose|j: int| 0 <= j < ls.len() && #[trigger] ls[j] == filename@;
            assert(loaded@[j]@ == filename@);
        }
    }
    let f = str_chars(filename);
    has_suffix(f.as_slice(), str_chars(".html").as_slice()) || has_suffix(
        f.as_slice(),
        str_chars(".xml").as_slice(),
    )
}

} // verus!
