//! The names and details under which uploaded images are stored.
use crate::api::{mime_from_extension, mime_of_extension};
use crate::deps::{
    new_uuid, path_extension, path_extension_of, path_file_stem, path_file_stem_of,
    string_from_chars, unicode_lowercase, unicode_lowercase_of, uuid_canonical_of,
};
use crate::entities::{Asset, AssetVariant};
use crate::mass_asset_import::{chars_less, lemma_seq_lt_total, lemma_seq_lt_trans, seq_lt};
use crate::strings::{push_all, str_chars, str_eq};
use vstd::prelude::*;

verus! {

/// The lower-cased extension of an uploaded file's name, `bin` when it has none.
pub open spec fn upload_extension_of(original_filename: Seq<char>) -> Seq<char> {
    match path_extension_of(original_filename) {
        Some(e) => unicode_lowercase_of(e),
        None => unicode_lowercase_of("bin"@),
    }
}

/// The extension under which an uploaded file is stored.
pub fn upload_extension(original_filename: &str) -> (r: String)
    ensures
        r@ == upload_extension_of(original_filename@),
{
    match path_extension(original_filename) {
        Some(e) => unicode_lowercase(e.as_str()),
        None => unicode_lowercase("bin"),
    }
}

/// The stored name of an upload: its identifier, a dot and its extension.
pub fn storage_basename(id: &str, extension: &str) -> (r: String)
    ensures
        r@ == id@ + "."@ + extension@,
{
    let mut v = str_chars(id);
    v.push('.');
    push_all(&mut v, str_chars(extension).as_slice());
    proof {
        reveal_strlit(".");
    }
    string_from_chars(v.as_slice())
}

/// A fresh stored name for an upload: a new UUID, a dot and the extension.
pub fn new_storage_basename(extension: &str) -> (r: String)
    ensures
        exists|id: Seq<char>| uuid_canonical_of(id) == Some(id) && r@ == id + "."@ + extension@,
{
    let id = new_uuid();
    let r = storage_basename(id.as_str(), extension);
    proof {
        assert(uuid_canonical_of(id@) == Some(id@) && r@ == id@ + "."@ + extension@);
    }
    r
}

/// The file name of an upload's thumbnail: the stored name's stem (`asset`
/// when it has none), `_thumb`, a dot and the thumbnail's extension.
pub open spec fn thumbnail_filename_of(storage: Seq<char>, extension: Seq<char>) -> Seq<char> {
    let stem = match path_file_stem_of(storage) {
        Some(s) => s,
        None => "asset"@,
    };
    stem + "_thumb."@ + extension
}

/// The file name under which an upload's thumbnail is stored.
pub fn thumbnail_filename(storage: &str, extension: &str) -> (r: String)
    ensures
        r@ == thumbnail_filename_of(storage@, extension@),
{
    let mut v = match path_file_stem(storage) {
        Some(s) => str_chars(s.as_str()),
        None => str_chars("asset"),
    };
    push_all(&mut v, str_chars("_thumb.").as_slice());
    push_all(&mut v, str_chars(extension).as_slice());
    string_from_chars(v.as_slice())
}

/// A stored image dimension: positive and fitting an `i32`, else unknown.
pub fn stored_dimension(value: u32) -> (r: Option<i32>)
    ensures
        r == (if 0 < value <= i32::MAX {
            Some(value as i32)
        } else {
            None::<i32>
        }),
{
    if value > 0 && value <= 2147483647u32 {
        Some(value as i32)
    } else {
        None
    }
}

/// The byte length recorded for a stored file: its length, or `i32::MAX` when
/// that does not fit an `i32`.
pub fn stored_byte_length(len: usize) -> (r: i32)
    ensures
        r == (if len <= i32::MAX {
            len as i32
        } else {
            i32::MAX
        }),
{
    if len <= 2147483647usize {
        len as i32
    } else {
        2147483647i32
    }
}

/// The MIME type recorded for an upload: the one given, else the one of its
/// extension.
pub fn upload_mime_type(given: Option<String>, extension: &str) -> (r: String)
    ensures
        r@ == match given {
            Some(m) => m@,
            None => mime_of_extension(extension@),
        },
{
    match given {
        Some(m) => m,
        None => mime_from_extension(extension).to_string(),
    }
}

/// Whether names are in strictly increasing order.
pub open spec fn strictly_sorted(s: Seq<Seq<char>>) -> bool {
    forall|i: int, j: int| 0 <= i < j < s.len() ==> seq_lt(#[trigger] s[i], #[trigger] s[j])
}

pub open spec fn texts(s: Seq<String>) -> Seq<Seq<char>> {
    s.map_values(|t: String| t@)
}

fn insert_sorted(sorted: &mut Vec<String>, name: String)
    requires
        strictly_sorted(texts(old(sorted)@)),
    ensures
        strictly_sorted(texts(final(sorted)@)),
        forall|x: Seq<char>|
            texts(final(sorted)@).contains(x) <==> (texts(old(sorted)@).contains(x) || x == name@),
{
    let nc = str_chars(name.as_str());
    let ghost ts = texts(sorted@);
    let mut p: usize = 0;
    while p < sorted.len() && chars_less(str_chars(sorted[p].as_str()).as_slice(), nc.as_slice())
        invariant
            0 <= p <= sorted@.len(),
            ts == texts(sorted@),
            forall|q: int| 0 <= q < p ==> seq_lt(#[trigger] ts[q], nc@),
        decreases sorted@.len() - p,
    {
        proof {
            assert(ts[p as int] == sorted@[p as int]@);
        }
        p = p + 1;
    }
    if p < sorted.len() && str_eq(sorted[p].as_str(), name.as_str()) {
        proof {
            assert(ts[p as int] == name@);
        }
        return;
    }
    let ghost before = sorted@;
    sorted.insert(p, name);
    proof {
        let t0 = texts(before);
        let t1 = texts(sorted@);
        assert(t1 =~= t0.insert(p as int, nc@));
        if p < t0.len() {
            assert(t0[p as int] == before[p as int]@);
            lemma_seq_lt_total(nc@, t0[p as int]);
            assert(seq_lt(nc@, t0[p as int]));
        }
        assert forall|a: int, b: int| 0 <= a < b < t1.len() implies seq_lt(#[trigger] t1[a], #[trigger] t1[b]) by {
            if b < p {
                assert(t1[a] == t0[a]);
                assert(t1[b] == t0[b]);
            } else if b == p {
                assert(t1[a] == t0[a]);
                assert(seq_lt(ts[a], nc@));
            } else if a < p {
                assert(t1[a] == t0[a]);
                assert(t1[b] == t0[b - 1]);
            } else if a == p {
                assert(t1[b] == t0[b - 1]);
                if b - 1 > p {
                    lemma_seq_lt_trans(nc@, t0[p as int], t0[b - 1]);
                }
            } else {
                assert(t1[a] == t0[a - 1]);
                assert(t1[b] == t0[b - 1]);
            }
        }
        assert forall|x: Seq<char>| t1.contains(x) <==> (t0.contains(x) || x == nc@) by {
            if t1.contains(x) {
                let k = choose|k: int| 0 <= k < t1.len() && #[trigger] t1[k] == x;
                if k < p {
                    assert(t0[k] == x);
                } else if k > p {
                    assert(t0[k - 1] == x);
                }
            }
            if t0.contains(x) {
                let k = choose|k: int| 0 <= k < t0.len() && #[trigger] t0[k] == x;
                if k < p {
                    assert(t1[k] == x);
                } else {
                    assert(t1[k + 1] == x);
                }
            }
            if x == nc@ {
                assert(t1[p as int] == x);
            }
        }
    }
}

/// Every stored file name of an asset, each once, in byte order: the stored
/// original and the files of its variants.
pub fn collect_asset_filenames(storage_basename: &str, variant_filenames: &[String]) -> (r: Vec<String>)
    ensures
        strictly_sorted(texts(r@)),
        forall|x: Seq<char>|
            texts(r@).contains(x) <==> (x == storage_basename@ || texts(
                variant_filenames@,
            ).contains(x)),
{
    let mut sorted: Vec<String> = Vec::new();
    let ghost vs = texts(variant_filenames@);
    insert_sorted(&mut sorted, string_from_chars(str_chars(storage_basename).as_slice()));
    let mut i: usize = 0;
    while i < variant_filenames.len()
        invariant
            0 <= i <= variant_filenames@.len(),
            vs == texts(variant_filenames@),
            strictly_sorted(texts(sorted@)),
            forall|x: Seq<char>|
                texts(sorted@).contains(x) <==> (x == storage_basename@ || vs.take(i as int).contains(x)),
        decreases variant_filenames@.len() - i,
    {
        proof {
            assert(vs.take(i + 1) =~= vs.take(i as int).push(variant_filenames@[i as int]@));
            assert forall|x: Seq<char>| vs.take(i + 1).contains(x) <==> (vs.take(i as int).contains(x)
                || x == variant_filenames@[i as int]@) by {
                if vs.take(i + 1).contains(x) {
                    let t = vs.take(i + 1);
                    let k = choose|k: int| 0 <= k < t.len() && #[trigger] t[k] == x;
                    if k < i {
                        assert(vs.take(i as int)[k] == x);
                    }
                }
                if vs.take(i as int).contains(x) {
                    let t = vs.take(i as int);
                    let k = choose|k: int| 0 <= k < t.len() && #[trigger] t[k] == x;
                    assert(vs.take(i + 1)[k] == x);
                }
                if x == variant_filenames@[i as int]@ {
                    assert(vs.take(i + 1)[i as int] == x);
                }
            }
        }
        let ghost before = texts(sorted@);
        let name = variant_filenames[i].clone();
        insert_sorted(&mut sorted, name);
        proof {
            assert forall|x: Seq<char>| texts(sorted@).contains(x) <==> (x == storage_basename@
                || vs.take(i + 1).contains(x)) by {
                assert(texts(sorted@).contains(x) <==> (before.contains(x) || x
                    == variant_filenames@[i as int]@));
                assert(before.contains(x) <==> (x == storage_basename@ || vs.take(i as int).contains(
                    x,
                )));
                assert(vs.take(i + 1).contains(x) <==> (vs.take(i as int).contains(x) || x
                    == variant_filenames@[i as int]@));
            }
        }
        i = i + 1;
    }
    proof {
        assert(vs.take(i as int) =~= vs);
    }
    sorted
}

fn insert_all(start_sorted: Vec<String>, names: &[String]) -> (r: Vec<String>)
    requires
        strictly_sorted(texts(start_sorted@)),
    ensures
        strictly_sorted(texts(r@)),
        forall|x: Seq<char>|
            texts(r@).contains(x) <==> (texts(start_sorted@).contains(x) || texts(names@).contains(x)),
{
    let mut sorted = start_sorted;
    let ghost start = texts(sorted@);
    let ghost vs = texts(names@);
    let mut i: usize = 0;
    while i < names.len()
        invariant
            0 <= i <= names@.len(),
            vs == texts(names@),
            strictly_sorted(texts(sorted@)),
            forall|x: Seq<char>|
                #[trigger] texts(sorted@).contains(x) <==> (start.contains(x) || vs.take(i as int).contains(x)),
        decreases names@.len() - i,
    {
        proof {
            assert(vs.take(i + 1) =~= vs.take(i as int).push(names@[i as int]@));
            assert forall|x: Seq<char>| #[trigger] vs.take(i + 1).contains(x) <==> (vs.take(i as int).contains(x)
                || x == names@[i as int]@) by {
                if vs.take(i + 1).contains(x) {
                    let t = vs.take(i + 1);
                    let k = choose|k: int| 0 <= k < t.len() && #[trigger] t[k] == x;
                    if k < i {
                        assert(vs.take(i as int)[k] == x);
                    }
                }
                if vs.take(i as int).contains(x) {
                    let t = vs.take(i as int);
                    let k = choose|k: int| 0 <= k < t.len() && #[trigger] t[k] == x;
                    assert(vs.take(i + 1)[k] == x);
                }
                if x == names@[i as int]@ {
                    assert(vs.take(i + 1)[i as int] == x);
                }
            }
        }
        let ghost before = texts(sorted@);
        let name = names[i].clone();
        insert_sorted(&mut sorted, name);
        proof {
            assert forall|x: Seq<char>| texts(sorted@).contains(x) <==> (start.contains(x)
                || vs.take(i + 1).contains(x)) by {
                assert(texts(sorted@).contains(x) <==> (before.contains(x) || x == names@[i as int]@));
                assert(before.contains(x) <==> (start.contains(x) || vs.take(i as int).contains(x)));
                assert(vs.take(i + 1).contains(x) <==> (vs.take(i as int).contains(x) || x
                    == names@[i as int]@));
            }
        }
        i = i + 1;
    }
    proof {
        assert(vs.take(i as int) =~= vs);
    }
    sorted
}

/// The media files that a rendered site carries, each once, in byte order:
/// the stored original of each of the site's assets and the files of their
/// variants.
pub fn media_file_names(assets: &[Asset], variants: &[AssetVariant]) -> (r: Vec<String>)
    ensures
        strictly_sorted(texts(r@)),
        forall|x: Seq<char>|
            texts(r@).contains(x) <==> ((exists|i: int|
                0 <= i < assets@.len() && #[trigger] assets@[i].storage_basename@ == x) || (exists|j: int|
                0 <= j < variants@.len() && #[trigger] variants@[j].filename@ == x)),
{
    let mut originals: Vec<String> = Vec::new();
    let mut i: usize = 0;
    while i < assets.len()
        invariant
            0 <= i <= assets@.len(),
            originals@.len() == i,
            forall|k: int| 0 <= k < i ==> (#[trigger] originals@[k])@ == assets@[k].storage_basename@,
        decreases assets@.len() - i,
    {
        originals.push(assets[i].storage_basename.clone());
        i = i + 1;
    }
    let mut files: Vec<String> = Vec::new();
    let mut j: usize = 0;
    while j < variants.len()
        invariant
            0 <= j <= variants@.len(),
            files@.len() == j,
            forall|k: int| 0 <= k < j ==> (#[trigger] files@[k])@ == variants@[k].filename@,
        decreases variants@.len() - j,
    {
        files.push(variants[j].filename.clone());
        j = j + 1;
    }
    let empty: Vec<String> = Vec::new();
    proof {
        assert(texts(empty@) =~= Seq::<Seq<char>>::empty());
    }
    let sorted = insert_all(insert_all(empty, originals.as_slice()), files.as_slice());
    proof {
        assert forall|x: Seq<char>| texts(sorted@).contains(x) <==> ((exists|a: int|
            0 <= a < assets@.len() && #[trigger] assets@[a].storage_basename@ == x) || (exists|b: int|
            0 <= b < variants@.len() && #[trigger] variants@[b].filename@ == x)) by {
            if texts(originals@).contains(x) {
                let k = choose|k: int| 0 <= k < texts(originals@).len() && #[trigger] texts(originals@)[k] == x;
                assert(assets@[k].storage_basename@ == x);
            }
            if exists|a: int| 0 <= a < assets@.len() && #[trigger] assets@[a].storage_basename@ == x {
                let a = choose|a: int| 0 <= a < assets@.len() && #[trigger] assets@[a].storage_basename@ == x;
                assert(texts(originals@)[a] == x);
            }
            if texts(files@).contains(x) {
                let k = choose|k: int| 0 <= k < texts(files@).len() && #[trigger] texts(files@)[k] == x;
                assert(variants@[k].filename@ == x);
            }
            if exists|b: int| 0 <= b < variants@.len() && #[trigger] variants@[b].filename@ == x {
                let b = choose|b: int| 0 <= b < variants@.len() && #[trigger] variants@[b].filename@ == x;
                assert(texts(files@)[b] == x);
            }
        }
    }
    sorted
}

} // verus!
