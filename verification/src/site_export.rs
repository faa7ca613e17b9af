//! The checks and warnings of a site export, the order in which it lists
//! records, and the publish settings it carries.
use crate::deps::{path_components, path_components_of, string_from_chars};
use crate::entities::{
    page_type_name, publish_method_name, Asset, ContentItem, PublishMethod, SiteRole,
};
use crate::errors::SiteError;
use crate::mass_asset_import::{
    components_less, components_lt, lemma_seq_lt_irreflexive, lemma_seq_lt_trans,
};
use crate::publish::{PublishTarget, RsyncPublishConfig, S3CompatiblePublishConfig};
use crate::strings::{
    chars_of, decimal, decimal_chars, join, push_all, str_chars, str_eq, trim, trim_chars, CharPat,
};
use vstd::prelude::*;

verus! {

/// The version of the export format that this library reads and writes.
pub const SITE_EXPORT_FORMAT_VERSION: u32 = 2;

/// The publish settings stored with an exported site.
#[derive(Debug)]
pub struct ExportSitePublishConfig {
    pub method: PublishMethod,
    pub s3: Option<S3CompatiblePublishConfig>,
    pub rsync: Option<RsyncPublishConfig>,
}

/// Why an export cannot be imported, if it cannot: a format version other
/// than the supported one, or a blank short name.
pub open spec fn export_problem(format_version: u32, short_name: Seq<char>) -> Option<Seq<char>> {
    if format_version != SITE_EXPORT_FORMAT_VERSION {
        Some("unsupported site export format version: "@ + decimal(format_version as nat))
    } else if trim(short_name, CharPat::Ws).len() == 0 {
        Some("site export is missing short_name"@)
    } else {
        None
    }
}

/// Checks an export's format version and site short name.
pub fn validate_site_export(format_version: u32, short_name: &str) -> (r: Result<(), SiteError>)
    ensures
        match export_problem(format_version, short_name@) {
            None => r is Ok,
            Some(msg) => r matches Err(e) && e == SiteError::BadRequest(e->BadRequest_0)
                && e->BadRequest_0@ == msg,
        },
{
    if format_version != SITE_EXPORT_FORMAT_VERSION {
        let mut msg = chars_of("unsupported site export format version: ");
        push_all(&mut msg, decimal_chars(format_version as u64).as_slice());
        return Err(SiteError::BadRequest(string_from_chars(msg.as_slice())));
    }
    if trim_chars(str_chars(short_name).as_slice(), &CharPat::Ws).len() == 0 {
        return Err(SiteError::BadRequest("site export is missing short_name".to_string()));
    }
    Ok(())
}

/// An import may not take a short name that another site already has.
pub fn check_import_short_name(short_name: &str, taken: bool) -> (r: Result<(), SiteError>)
    ensures
        !taken ==> r is Ok,
        taken ==> (r matches Err(SiteError::BadRequest(m)) && m@ == "site short_name already exists: "@
            + short_name@),
{
    if taken {
        let mut v = chars_of("site short_name already exists: ");
        push_all(&mut v, str_chars(short_name).as_slice());
        return Err(SiteError::BadRequest(string_from_chars(v.as_slice())));
    }
    Ok(())
}

/// A membership of an export must name the same user as the user record it
/// embeds.
pub fn check_membership_user(membership_id: &str, user_id: &str, embedded_user_id: &str) -> (r: Result<
    (),
    SiteError,
>)
    ensures
        user_id@ == embedded_user_id@ ==> r is Ok,
        user_id@ != embedded_user_id@ ==> (r matches Err(SiteError::BadRequest(m)) && m@ == "membership "@
            + membership_id@ + " has mismatched embedded user id"@),
{
    if !str_eq(user_id, embedded_user_id) {
        let mut v = chars_of("membership ");
        push_all(&mut v, str_chars(membership_id).as_slice());
        push_all(&mut v, chars_of(" has mismatched embedded user id").as_slice());
        return Err(SiteError::BadRequest(string_from_chars(v.as_slice())));
    }
    Ok(())
}

/// The number of asset files an export refers to: each asset and each of its
/// variants, saturating at `usize::MAX`.
pub open spec fn asset_file_count(variant_counts: Seq<usize>) -> nat
    decreases variant_counts.len(),
{
    if variant_counts.len() == 0 {
        0
    } else {
        let prev = asset_file_count(variant_counts.drop_last());
        let one = if variant_counts.last() < usize::MAX {
            variant_counts.last() + 1
        } else {
            usize::MAX as int
        };
        let total = prev + one;
        if total > usize::MAX {
            usize::MAX as nat
        } else {
            total as nat
        }
    }
}

/// The warnings of an import: files of assets and template overrides are not
/// restored, since exports carry their metadata only.
pub open spec fn import_warnings(variant_counts: Seq<usize>, override_count: usize) -> Seq<Seq<char>> {
    let files = asset_file_count(variant_counts);
    let first = if files > 0 {
        seq![
            decimal(files)
                + " asset file reference(s) were not restored because site exports contain file metadata only."@,
        ]
    } else {
        Seq::empty()
    };
    if override_count > 0 {
        first.push(
            decimal(override_count as nat)
                + " template override file(s) were not restored because site exports contain file metadata only."@,
        )
    } else {
        first
    }
}

/// The warnings of importing an export with assets that have the given
/// numbers of variants and with the given number of template overrides.
pub fn build_import_warnings(asset_variant_counts: &[usize], template_override_count: usize) -> (r: Vec<String>)
    ensures
        r@.map_values(|w: String| w@) == import_warnings(asset_variant_counts@, template_override_count),
{
    let mut total: usize = 0;
    let mut i: usize = 0;
    proof {
        assert(asset_variant_counts@.take(0) =~= Seq::<usize>::empty());
    }
    while i < asset_variant_counts.len()
        invariant
            0 <= i <= asset_variant_counts@.len(),
            total as nat == asset_file_count(asset_variant_counts@.take(i as int)),
        decreases asset_variant_counts@.len() - i,
    {
        proof {
            assert(asset_variant_counts@.take(i + 1).drop_last() =~= asset_variant_counts@.take(
                i as int,
            ));
        }
        let v = asset_variant_counts[i];
        let one = if v < usize::MAX {
            v + 1
        } else {
            usize::MAX
        };
        total = if total <= usize::MAX - one {
            total + one
        } else {
            usize::MAX
        };
        i = i + 1;
    }
    proof {
        assert(asset_variant_counts@.take(i as int) =~= asset_variant_counts@);
    }
    let mut warnings: Vec<String> = Vec::new();
    if total > 0 {
        let mut w = decimal_chars(total as u64);
        push_all(
            &mut w,
            chars_of(
                " asset file reference(s) were not restored because site exports contain file metadata only.",
            ).as_slice(),
        );
        warnings.push(string_from_chars(w.as_slice()));
    }
    if template_override_count > 0 {
        let mut w = decimal_chars(template_override_count as u64);
        push_all(
            &mut w,
            chars_of(
                " template override file(s) were not restored because site exports contain file metadata only.",
            ).as_slice(),
        );
        warnings.push(string_from_chars(w.as_slice()));
    }
    proof {
        assert(warnings@.map_values(|w: String| w@) =~= import_warnings(
            asset_variant_counts@,
            template_override_count,
        ));
    }
    warnings
}

/// A path with its components joined by `/`.
pub fn normalize_relative_path(path: &str) -> (r: String)
    ensures
        r@ == join(path_components_of(path@), "/"@),
{
    let parts = path_components(path);
    let ghost ps = parts.deep_view();
    let mut out: Vec<char> = Vec::new();
    let mut i: usize = 0;
    proof {
        reveal_strlit("/");
        assert(ps.take(0) =~= Seq::<Seq<char>>::empty());
    }
    while i < parts.len()
        invariant
            0 <= i <= parts@.len(),
            ps == parts.deep_view(),
            out@ == join(ps.take(i as int), "/"@),
        decreases parts@.len() - i,
    {
        proof {
            reveal_strlit("/");
            assert(ps.take(i + 1).drop_last() =~= ps.take(i as int));
            assert(ps.take(i + 1).last() == parts@[i as int]@);
        }
        if i > 0 {
            out.push('/');
        }
        push_all(&mut out, str_chars(parts[i].as_str()).as_slice());
        proof {
            if i == 0 {
                assert(ps.take(1).len() == 1);
                assert(out@ =~= ps.take(1)[0]);
            }
        }
        i = i + 1;
    }
    proof {
        assert(ps.take(i as int) =~= ps);
    }
    string_from_chars(out.as_slice())
}

/// A membership of an export may not hold the administrator role.
pub fn check_membership_role(role: SiteRole) -> (r: Result<(), SiteError>)
    ensures
        role != SiteRole::Admin ==> r is Ok,
        role == SiteRole::Admin ==> (r matches Err(SiteError::BadRequest(m)) && m@
            == "site membership exports cannot contain admin roles"@),
{
    if role.is_admin() {
        return Err(
            SiteError::BadRequest("site membership exports cannot contain admin roles".to_string()),
        );
    }
    Ok(())
}

/// The publish settings that an export carries for a site's saved ones: the
/// S3 or the rsync settings under their method; disabled publishing is
/// refused.
pub open spec fn exported_publish_config(target: PublishTarget) -> Result<
    ExportSitePublishConfig,
    Seq<char>,
> {
    match target {
        PublishTarget::S3(c) => Ok(
            ExportSitePublishConfig { method: PublishMethod::S3Compatible, s3: Some(c), rsync: None },
        ),
        PublishTarget::Rsync(c) => Ok(
            ExportSitePublishConfig { method: PublishMethod::RsyncSsh, s3: None, rsync: Some(c) },
        ),
        PublishTarget::Disabled => Err(
            "unsupported publish method in export: "@ + publish_method_name(PublishMethod::Disabled),
        ),
    }
}

/// The publish settings that an export carries for a site's saved ones.
pub fn export_publish_config(target: PublishTarget) -> (r: Result<ExportSitePublishConfig, SiteError>)
    ensures
        match exported_publish_config(target) {
            Ok(c) => r == Ok::<ExportSitePublishConfig, SiteError>(c),
            Err(msg) => r matches Err(SiteError::BadRequest(m)) && m@ == msg,
        },
{
    match target {
        PublishTarget::S3(c) => Ok(
            ExportSitePublishConfig { method: PublishMethod::S3Compatible, s3: Some(c), rsync: None },
        ),
        PublishTarget::Rsync(c) => Ok(
            ExportSitePublishConfig { method: PublishMethod::RsyncSsh, s3: None, rsync: Some(c) },
        ),
        PublishTarget::Disabled => {
            let mut m = chars_of("unsupported publish method in export: ");
            push_all(&mut m, str_chars(PublishMethod::Disabled.as_str()).as_slice());
            Err(SiteError::BadRequest(string_from_chars(m.as_slice())))
        },
    }
}

/// The publish settings that importing an export stores, as
/// `publish_config_to_import` computes them.
pub open spec fn imported_publish_config(config: ExportSitePublishConfig) -> Option<PublishTarget> {
    match config.method {
        PublishMethod::S3Compatible => match config.s3 {
            Some(c) => Some(PublishTarget::S3(c)),
            None => None,
        },
        PublishMethod::RsyncSsh => match config.rsync {
            Some(c) => Some(PublishTarget::Rsync(c)),
            None => None,
        },
        PublishMethod::Disabled => None,
    }
}

/// Exporting a site's S3 or rsync publish settings and importing the export
/// gives back the same settings, under the same method.
pub proof fn publish_config_round_trip(target: PublishTarget)
    requires
        !(target is Disabled),
    ensures
        exported_publish_config(target) matches Ok(c) && imported_publish_config(c) == Some(target),
{
}

/// The publish settings that importing an export stores: those of its
/// method, which must be present; a disabled configuration is refused.
pub fn publish_config_to_import(config: ExportSitePublishConfig) -> (r: Result<PublishTarget, SiteError>)
    ensures
        match imported_publish_config(config) {
            Some(t) => r == Ok::<PublishTarget, SiteError>(t),
            None => r is Err,
        },
        match config.method {
            PublishMethod::S3Compatible => match config.s3 {
                Some(c) => r == Ok::<PublishTarget, SiteError>(PublishTarget::S3(c)),
                None => r matches Err(e) && e == SiteError::BadRequest(e->BadRequest_0)
                    && e->BadRequest_0@ == "export publish config missing S3 settings"@,
            },
            PublishMethod::RsyncSsh => match config.rsync {
                Some(c) => r == Ok::<PublishTarget, SiteError>(PublishTarget::Rsync(c)),
                None => r matches Err(e) && e == SiteError::BadRequest(e->BadRequest_0)
                    && e->BadRequest_0@ == "export publish config missing rsync settings"@,
            },
            PublishMethod::Disabled => r matches Err(e) && e == SiteError::BadRequest(
                e->BadRequest_0,
            ) && e->BadRequest_0@ == "disabled publish configs cannot be imported"@,
        },
{
    match config.method {
        PublishMethod::S3Compatible => match config.s3 {
            Some(c) => Ok(PublishTarget::S3(c)),
            None => Err(SiteError::BadRequest("export publish config missing S3 settings".to_string())),
        },
        PublishMethod::RsyncSsh => match config.rsync {
            Some(c) => Ok(PublishTarget::Rsync(c)),
            None => Err(
                SiteError::BadRequest("export publish config missing rsync settings".to_string()),
            ),
        },
        PublishMethod::Disabled => Err(
            SiteError::BadRequest("disabled publish configs cannot be imported".to_string()),
        ),
    }
}

/// Where a record goes among records already in order: before the first one
/// whose key is greater than its own.
pub open spec fn key_insert_pos(keys: Seq<Seq<Seq<char>>>, order: Seq<usize>, x: int) -> nat
    decreases order.len(),
{
    if order.len() == 0 {
        0
    } else if components_lt(keys[x], keys[order[0] as int]) {
        0
    } else {
        1 + key_insert_pos(keys, order.drop_first(), x)
    }
}

/// The positions of the first `n` records in the order of their keys (key
/// parts compared in turn, each by its characters); records with equal keys
/// keep their order.
pub open spec fn keyed_order(keys: Seq<Seq<Seq<char>>>, n: nat) -> Seq<usize>
    decreases n,
{
    if n == 0 {
        Seq::empty()
    } else {
        let t = keyed_order(keys, (n - 1) as nat);
        t.insert(key_insert_pos(keys, t, n - 1) as int, (n - 1) as usize)
    }
}

fn key_pos(keys: &Vec<Vec<String>>, order: &Vec<usize>, x: usize) -> (r: usize)
    requires
        x < keys@.len(),
        forall|k: int| 0 <= k < order@.len() ==> order@[k] < keys@.len(),
    ensures
        r == key_insert_pos(keys.deep_view(), order@, x as int),
        r <= order@.len(),
{
    let ghost kv = keys.deep_view();
    let mut j: usize = 0;
    proof {
        assert(order@.skip(0) =~= order@);
    }
    while j < order.len()
        invariant
            0 <= j <= order@.len(),
            x < keys@.len(),
            kv == keys.deep_view(),
            forall|k: int| 0 <= k < order@.len() ==> order@[k] < keys@.len(),
            key_insert_pos(kv, order@, x as int) == j + key_insert_pos(kv, order@.skip(j as int), x as int),
        decreases order@.len() - j,
    {
        proof {
            assert(order@.skip(j as int)[0] == order@[j as int]);
            assert(order@.skip(j as int).drop_first() =~= order@.skip(j + 1));
            assert(kv[x as int] == keys@[x as int].deep_view());
            assert(kv[order@[j as int] as int] == keys@[order@[j as int] as int].deep_view());
        }
        if components_less(&keys[x], &keys[order[j]]) {
            return j;
        }
        j = j + 1;
    }
    j
}

/// The order in which an export lists records, given each record's sort key:
/// the records' positions, by key; records with equal keys keep their order.
pub fn export_order(keys: &Vec<Vec<String>>) -> (r: Vec<usize>)
    ensures
        r@ == keyed_order(keys.deep_view(), keys@.len() as nat),
{
    let ghost kv = keys.deep_view();
    let mut order: Vec<usize> = Vec::new();
    let mut i: usize = 0;
    while i < keys.len()
        invariant
            0 <= i <= keys@.len(),
            kv == keys.deep_view(),
            order@ == keyed_order(kv, i as nat),
            forall|k: int| 0 <= k < order@.len() ==> order@[k] < i,
        decreases keys@.len() - i,
    {
        let p = key_pos(keys, &order, i);
        order.insert(p, i);
        proof {
            assert forall|k: int| 0 <= k < order@.len() implies order@[k] < i + 1 by {
                if k < p {
                } else if k > p {
                    assert(order@[k] == keyed_order(kv, i as nat)[k - 1]);
                }
            }
        }
        i = i + 1;
    }
    order
}

/// The sort key of a content item in an export: its page type's name, its
/// slug, then its id.
pub fn content_export_key(c: &ContentItem) -> (r: Vec<String>)
    ensures
        r.deep_view() == seq![page_type_name(c.page_type), c.slug@, c.id@],
{
    let r = vec![c.page_type.to_string(), c.slug.clone(), c.id.clone()];
    proof {
        assert(r.deep_view() =~= seq![page_type_name(c.page_type), c.slug@, c.id@]);
    }
    r
}

/// The sort key of an asset in an export: its original file name, then its id.
pub fn asset_export_key(a: &Asset) -> (r: Vec<String>)
    ensures
        r.deep_view() == seq![a.original_filename@, a.id@],
{
    let r = vec![a.original_filename.clone(), a.id.clone()];
    proof {
        assert(r.deep_view() =~= seq![a.original_filename@, a.id@]);
    }
    r
}

proof fn lemma_components_lt_irreflexive(a: Seq<Seq<char>>)
    ensures
        !components_lt(a, a),
    decreases a.len(),
{
    if a.len() > 0 {
        lemma_seq_lt_irreflexive(a[0]);
        lemma_components_lt_irreflexive(a.drop_first());
    }
}

proof fn lemma_components_lt_trans(a: Seq<Seq<char>>, b: Seq<Seq<char>>, c: Seq<Seq<char>>)
    requires
        components_lt(a, b),
        components_lt(b, c),
    ensures
        components_lt(a, c),
    decreases a.len(),
{
    if a.len() > 0 && b.len() > 0 && c.len() > 0 {
        if seq_lt_first(a, b) && seq_lt_first(b, c) {
            lemma_seq_lt_trans(a[0], b[0], c[0]);
        } else if a[0] == b[0] && b[0] == c[0] {
            lemma_seq_lt_irreflexive(a[0]);
            lemma_components_lt_trans(a.drop_first(), b.drop_first(), c.drop_first());
        }
    }
}

spec fn seq_lt_first(a: Seq<Seq<char>>, b: Seq<Seq<char>>) -> bool {
    crate::mass_asset_import::seq_lt(a[0], b[0])
}

proof fn lemma_insert_pos(keys: Seq<Seq<Seq<char>>>, t: Seq<usize>, x: int)
    ensures
        key_insert_pos(keys, t, x) <= t.len(),
        forall|k: int| 0 <= k < key_insert_pos(keys, t, x) ==> !components_lt(keys[x], #[trigger] keys[t[k] as int]),
        key_insert_pos(keys, t, x) < t.len() ==> components_lt(keys[x], keys[t[key_insert_pos(keys, t, x) as int] as int]),
    decreases t.len(),
{
    if t.len() > 0 && !components_lt(keys[x], keys[t[0] as int]) {
        lemma_insert_pos(keys, t.drop_first(), x);
        assert forall|k: int| 0 <= k < key_insert_pos(keys, t, x) implies !components_lt(keys[x], #[trigger] keys[t[k] as int]) by {
            if k > 0 {
                assert(t[k] == t.drop_first()[k - 1]);
            }
        }
    }
}

/// An export lists every record once, in the order of the records' keys: the
/// order holds each position below `n` once, and no record comes after one
/// whose key is greater.
pub proof fn export_order_sorts(keys: Seq<Seq<Seq<char>>>, n: nat)
    requires
        n <= keys.len(),
        n <= usize::MAX,
    ensures
        keyed_order(keys, n).len() == n,
        forall|i: usize| i < n ==> #[trigger] keyed_order(keys, n).contains(i),
        forall|k: int| 0 <= k < n ==> #[trigger] keyed_order(keys, n)[k] < n,
        forall|i: int, j: int|
            0 <= i < j < n ==> !components_lt(
                #[trigger] keys[keyed_order(keys, n)[j] as int],
                #[trigger] keys[keyed_order(keys, n)[i] as int],
            ),
    decreases n,
{
    if n > 0 {
        let m = (n - 1) as nat;
        export_order_sorts(keys, m);
        let t = keyed_order(keys, m);
        let x = m as int;
        let p = key_insert_pos(keys, t, x) as int;
        lemma_insert_pos(keys, t, x);
        let o = keyed_order(keys, n);
        assert(o == t.insert(p, m as usize));
        assert((m as usize) as int == x);
        assert forall|i: usize| i < n implies #[trigger] o.contains(i) by {
            if i == m {
                assert(o[p] == m as usize);
            } else {
                assert(t.contains(i));
                let k = choose|k: int| 0 <= k < t.len() && t[k] == i;
                if k < p {
                    assert(o[k] == i);
                } else {
                    assert(o[k + 1] == i);
                }
            }
        }
        assert forall|k: int| 0 <= k < n implies o[k] < n by {
            if k < p {
                assert(o[k] == t[k]);
            } else if k > p {
                assert(o[k] == t[k - 1]);
            }
        }
        assert forall|i: int, j: int| 0 <= i < j < n implies !components_lt(
            #[trigger] keys[o[j] as int],
            #[trigger] keys[o[i] as int],
        ) by {
            if j < p {
                assert(o[i] == t[i] && o[j] == t[j]);
            } else if j == p {
                assert(o[i] == t[i]);
                assert(!components_lt(keys[x], keys[t[i] as int]));
            } else if i < p {
                assert(o[i] == t[i] && o[j] == t[j - 1]);
            } else if i == p {
                assert(o[j] == t[j - 1]);
                assert(components_lt(keys[x], keys[t[p] as int]));
                if components_lt(keys[t[j - 1] as int], keys[x]) {
                    lemma_components_lt_trans(keys[t[j - 1] as int], keys[x], keys[t[p] as int]);
                    if j - 1 == p {
                        lemma_components_lt_irreflexive(keys[t[p] as int]);
                    }
                }
            } else {
                assert(o[i] == t[i - 1] && o[j] == t[j - 1]);
            }
        }
    }
}

} // verus!
