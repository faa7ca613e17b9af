//! The small readers and filters of the management API.
use crate::entities::{page_type_named, parsed_instant, PageType, Timestamp};
use crate::errors::SiteError;
use crate::deps::string_from_chars;
use crate::strings::{str_chars, str_eq, trim, trim_chars, CharPat};
use vstd::prelude::*;

verus! {

/// An optional page type parameter: absent stays absent, a name reads as its
/// page type, anything else is refused with the message of the refusal.
pub fn parse_page_type(value: Option<&str>) -> (r: Result<Option<PageType>, String>)
    ensures
        match value {
            None => r == Ok::<Option<PageType>, String>(None),
            Some(v) => match page_type_named(v@) {
                Some(p) => r == Ok::<Option<PageType>, String>(Some(p)),
                None => r matches Err(msg) && msg@ == "unsupported page type: "@ + v@,
            },
        },
{
    match value {
        None => Ok(None),
        Some(v) => match PageType::from_str(v) {
            Ok(p) => Ok(Some(p)),
            Err(msg) => Err(msg),
        },
    }
}

/// An optional `published_at` parameter: absent stays absent, an RFC 3339 text
/// reads as its instant, anything else is refused as bad input naming the
/// parse error.
pub fn parse_optional_datetime(value: Option<&str>) -> (r: Result<Option<Timestamp>, ApiError>)
    ensures
        match value {
            None => r matches Ok(None),
            Some(v) => match parsed_instant(v@) {
                Ok(x) => r matches Ok(Some(t)) && (t.spec_secs(), t.spec_nanos()) == x,
                Err(e) => r matches Err(ApiError::BadRequest(m)) && m@ == "invalid published_at: "@ + e,
            },
        },
{
    match value {
        None => Ok(None),
        Some(raw) => match Timestamp::parse_rfc3339_detailed(raw) {
            Ok(t) => Ok(Some(t)),
            Err(e) => {
                let mut v = str_chars("invalid published_at: ");
                crate::strings::push_all(&mut v, str_chars(e.as_str()).as_slice());
                Err(ApiError::BadRequest(string_from_chars(v.as_slice())))
            },
        },
    }
}

/// The tag names, trimmed, without blank ones, in order.
pub open spec fn tag_names_normalized(tags: Seq<Seq<char>>) -> Seq<Seq<char>>
    decreases tags.len(),
{
    if tags.len() == 0 {
        Seq::empty()
    } else {
        let prev = tag_names_normalized(tags.drop_last());
        let t = trim(tags.last(), CharPat::Ws);
        if t.len() == 0 {
            prev
        } else {
            prev.push(t)
        }
    }
}

/// Tag names as given by a client: trimmed, blank ones dropped.
pub fn normalize_tag_names(tags: Vec<String>) -> (r: Vec<String>)
    ensures
        r@.map_values(|t: String| t@) == tag_names_normalized(tags@.map_values(|t: String| t@)),
{
    let ghost ts = tags@.map_values(|t: String| t@);
    let mut out: Vec<String> = Vec::new();
    let mut i: usize = 0;
    proof {
        assert(ts.take(0) =~= Seq::<Seq<char>>::empty());
        assert(out@.map_values(|t: String| t@) =~= Seq::<Seq<char>>::empty());
    }
    while i < tags.len()
        invariant
            0 <= i <= tags@.len(),
            ts == tags@.map_values(|t: String| t@),
            out@.map_values(|t: String| t@) == tag_names_normalized(ts.take(i as int)),
        decreases tags@.len() - i,
    {
        proof {
            assert(ts.take(i + 1).drop_last() =~= ts.take(i as int));
            assert(ts.take(i + 1).last() == tags@[i as int]@);
        }
        let t = trim_chars(str_chars(tags[i].as_str()).as_slice(), &CharPat::Ws);
        if t.len() > 0 {
            let ghost before = out@;
            out.push(string_from_chars(t.as_slice()));
            proof {
                assert(out@.map_values(|t: String| t@) =~= before.map_values(|t: String| t@).push(
                    t@,
                ));
            }
        }
        i = i + 1;
    }
    proof {
        assert(ts.take(i as int) =~= ts);
    }
    out
}

/// The MIME type that an asset filter names; `all` and anything unknown
/// filter nothing.
pub open spec fn mime_filter_of(value: Seq<char>) -> Option<Seq<char>> {
    if value == "jpeg"@ || value == "jpg"@ {
        Some("image/jpeg"@)
    } else if value == "png"@ {
        Some("image/png"@)
    } else if value == "gif"@ {
        Some("image/gif"@)
    } else if value == "svg"@ {
        Some("image/svg+xml"@)
    } else if value == "webp"@ {
        Some("image/webp"@)
    } else {
        None
    }
}

/// The MIME type that an asset listing is filtered by.
pub fn normalize_asset_mime_filter(value: &str) -> (r: Option<&'static str>)
    ensures
        match r {
            Some(m) => mime_filter_of(value@) == Some(m@),
            None => mime_filter_of(value@) is None,
        },
{
    if str_eq(value, "jpeg") || str_eq(value, "jpg") {
        Some("image/jpeg")
    } else if str_eq(value, "png") {
        Some("image/png")
    } else if str_eq(value, "gif") {
        Some("image/gif")
    } else if str_eq(value, "svg") {
        Some("image/svg+xml")
    } else if str_eq(value, "webp") {
        Some("image/webp")
    } else {
        None
    }
}

/// The MIME type of a stored image by its extension.
pub open spec fn mime_of_extension(extension: Seq<char>) -> Seq<char> {
    if extension == "jpg"@ || extension == "jpeg"@ {
        "image/jpeg"@
    } else if extension == "png"@ {
        "image/png"@
    } else if extension == "gif"@ {
        "image/gif"@
    } else if extension == "webp"@ {
        "image/webp"@
    } else {
        "application/octet-stream"@
    }
}

/// The MIME type of a stored image by its extension.
pub fn mime_from_extension(extension: &str) -> (r: &'static str)
    ensures
        r@ == mime_of_extension(extension@),
{
    if str_eq(extension, "jpg") || str_eq(extension, "jpeg") {
        "image/jpeg"
    } else if str_eq(extension, "png") {
        "image/png"
    } else if str_eq(extension, "gif") {
        "image/gif"
    } else if str_eq(extension, "webp") {
        "image/webp"
    } else {
        "application/octet-stream"
    }
}

/// A user to create, known by its OIDC subject.
pub struct NewUser {
    pub subject: String,
}

/// The admin server to start.
pub enum ServeCommands {
    Admin { listen: String },
}

/// The user commands of the command line.
pub enum UserCommands {
    Create { subject: String, email: Option<String>, admin: bool },
    List,
}



/// An error answered by the management API.
#[derive(Debug)]
pub enum ApiError {
    BadRequest(String),
    Unauthorized(String),
    Forbidden(String),
    NotFound(String),
    Internal(String),
}

/// The API error that a library error is answered with.
pub open spec fn api_error_of(e: SiteError) -> (u8, Seq<char>) {
    match e {
        SiteError::NotFound => (3, "resource not found"@),
        SiteError::SiteNotFound(s) => (3, "site not found: "@ + s@),
        SiteError::ContentNotFound(s) => (3, "content not found: "@ + s@),
        SiteError::MembershipNotFound(s) => (3, "membership not found: "@ + s@),
        SiteError::BadRequest(s) => (0, s@),
        SiteError::UnAuthorized(s) => (1, s@),
        SiteError::Internal(s) => (4, s@),
        SiteError::Database(s) => (4, s@),
        SiteError::Io(s) => (4, s@),
        SiteError::XmlParsing(s) => (4, s@),
        SiteError::TeraTemplate(s) => (4, s@),
    }
}

/// (kind, detail) of an API error, kinds in declaration order.
pub open spec fn api_error_view(e: ApiError) -> (u8, Seq<char>) {
    match e {
        ApiError::BadRequest(s) => (0, s@),
        ApiError::Unauthorized(s) => (1, s@),
        ApiError::Forbidden(s) => (2, s@),
        ApiError::NotFound(s) => (3, s@),
        ApiError::Internal(s) => (4, s@),
    }
}

fn prefixed(prefix: &str, detail: &str) -> (r: String)
    ensures
        r@ == prefix@ + detail@,
{
    let mut v = str_chars(prefix);
    crate::strings::push_all(&mut v, str_chars(detail).as_slice());
    string_from_chars(v.as_slice())
}

/// The API error that a library error is answered with: missing things are
/// not found, bad input stays bad input, refused sign-in is unauthorized, and
/// everything else is internal.
pub fn api_error_from(e: SiteError) -> (r: ApiError)
    ensures
        api_error_view(r) == api_error_of(e),
{
    match e {
        SiteError::NotFound => ApiError::NotFound("resource not found".to_string()),
        SiteError::SiteNotFound(s) => ApiError::NotFound(prefixed("site not found: ", s.as_str())),
        SiteError::ContentNotFound(s) => ApiError::NotFound(prefixed("content not found: ", s.as_str())),
        SiteError::MembershipNotFound(s) => ApiError::NotFound(
            prefixed("membership not found: ", s.as_str()),
        ),
        SiteError::BadRequest(s) => ApiError::BadRequest(s),
        SiteError::UnAuthorized(s) => ApiError::Unauthorized(s),
        SiteError::Internal(s) => ApiError::Internal(s),
        SiteError::Database(s) => ApiError::Internal(s),
        SiteError::Io(s) => ApiError::Internal(s),
        SiteError::XmlParsing(s) => ApiError::Internal(s),
        SiteError::TeraTemplate(s) => ApiError::Internal(s),
    }
}

/// The HTTP status, message and `WWW-Authenticate` value of an API error's answer.
pub fn api_error_response_parts(e: &ApiError) -> (r: (u16, &'static str, Option<&'static str>))
    ensures
        r == (match api_error_view(*e).0 {
            0 => (400u16, "Invalid Input", None::<&'static str>),
            1 => (401u16, "Unauthorized", Some("Bearer")),
            2 => (403u16, "Forbidden", Some("Bearer error=\"insufficient_scope\"")),
            3 => (404u16, "Not Found", None::<&'static str>),
            _ => (500u16, "Internal Error", None::<&'static str>),
        }),
{
    match e {
        ApiError::BadRequest(_) => (400, "Invalid Input", None),
        ApiError::Unauthorized(_) => (401, "Unauthorized", Some("Bearer")),
        ApiError::Forbidden(_) => (403, "Forbidden", Some("Bearer error=\"insufficient_scope\"")),
        ApiError::NotFound(_) => (404, "Not Found", None),
        ApiError::Internal(_) => (500, "Internal Error", None),
    }
}

/// A limit clamped to 1..=200.
pub open spec fn clamp_limit(l: u64) -> int {
    if l < 1 {
        1
    } else if l > 200 {
        200
    } else {
        l as int
    }
}

/// The number of items a listing returns: the requested limit or the
/// default, clamped to 1..=200.
pub fn list_limit(limit: Option<u64>, default_limit: u64) -> (r: usize)
    ensures
        r as int == clamp_limit(match limit {
            Some(l) => l,
            None => default_limit,
        }),
{
    let l = match limit {
        Some(l) => l,
        None => default_limit,
    };
    if l < 1 {
        1
    } else if l > 200 {
        200
    } else {
        l as usize
    }
}

/// The default size of the asset library: 50 when searching, else 12.
pub fn library_default_limit(has_query: bool) -> (r: u64)
    ensures
        r == (if has_query { 50u64 } else { 12u64 }),
{
    if has_query {
        50
    } else {
        12
    }
}

/// The search text of a content search: trimmed, and refused when blank.
pub fn search_text(q: &str) -> (r: Result<String, String>)
    ensures
        match r {
            Ok(t) => t@ == trim(q@, CharPat::Ws) && t@.len() > 0,
            Err(m) => trim(q@, CharPat::Ws).len() == 0 && m@ == "missing q query parameter"@,
        },
{
    let t = trim_chars(str_chars(q).as_slice(), &CharPat::Ws);
    if t.len() == 0 {
        return Err("missing q query parameter".to_string());
    }
    Ok(string_from_chars(t.as_slice()))
}

/// Whether an update request sets at least one field; one that sets none is
/// refused with the message of the refusal.
pub fn check_update_has_fields(
    page_type: bool,
    title: bool,
    slug: bool,
    page_content: bool,
    draft: bool,
    published_at: bool,
    tags: bool,
) -> (r: Result<(), String>)
    ensures
        (page_type || title || slug || page_content || draft || published_at || tags) ==> r is Ok,
        !(page_type || title || slug || page_content || draft || published_at || tags) ==> (r matches Err(
            m,
        ) && m@ == "request body did not include any updatable fields"@),
{
    if !(page_type || title || slug || page_content || draft || published_at || tags) {
        return Err("request body did not include any updatable fields".to_string());
    }
    Ok(())
}

/// The items of a given page type, or all items when none is given, in order.
pub open spec fn of_type(items: Seq<crate::entities::ContentItem>, page_type: Option<PageType>) -> Seq<
    crate::entities::ContentItem,
>
    decreases items.len(),
{
    if items.len() == 0 {
        Seq::empty()
    } else {
        let prev = of_type(items.drop_last(), page_type);
        match page_type {
            Some(p) if items.last().page_type != p => prev,
            _ => prev.push(items.last()),
        }
    }
}

/// The items of the requested page type, at most `limit` of them.
pub fn retain_page_type(items: Vec<crate::entities::ContentItem>, page_type: Option<PageType>, limit: usize) -> (r: Vec<
    crate::entities::ContentItem,
>)
    ensures
        r@ == (if of_type(items@, page_type).len() <= limit {
            of_type(items@, page_type)
        } else {
            of_type(items@, page_type).take(limit as int)
        }),
{
    let ghost all = items@;
    let mut rest = items;
    let n: usize = rest.len();
    let mut out: Vec<crate::entities::ContentItem> = Vec::new();
    let mut k: usize = 0;
    proof {
        assert(all.take(0) =~= Seq::<crate::entities::ContentItem>::empty());
        assert(rest@ =~= all.skip(0));
    }
    while rest.len() > 0
        invariant
            k + rest@.len() == all.len(),
            all.len() == n,
            rest@ == all.skip(k as int),
            out@ == of_type(all.take(k as int), page_type),
        decreases rest@.len(),
    {
        let x = rest.remove(0);
        proof {
            assert(x == all[k as int]);
            assert(rest@ =~= all.skip(k + 1));
            assert(all.take(k + 1).drop_last() =~= all.take(k as int));
        }
        let keep = match page_type {
            Some(p) => x.page_type == p,
            None => true,
        };
        if keep {
            out.push(x);
        }
        k = k + 1;
    }
    proof {
        assert(all.take(k as int) =~= all);
    }
    out.truncate(limit);
    out
}
} // verus!
