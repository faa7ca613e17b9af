//! What the command line reads from its arguments and shows of content.
use crate::deps::string_from_chars;
use crate::entities::{parsed_instant, ContentItem, SiteRole, Timestamp};
use crate::site::{primary_route, primary_route_chars};
use crate::strings::{push_all, str_chars, str_eq, trim, trim_chars, CharPat};
use vstd::prelude::*;

verus! {

/// An optional date argument: absent or blank stays absent, an RFC 3339 text
/// (trimmed) reads as its instant, anything else is refused with a message
/// naming the argument and the parse error.
pub fn parse_optional_datetime(value: Option<String>, label: &str) -> (r: Result<Option<Timestamp>, String>)
    ensures
        match value {
            None => r matches Ok(None),
            Some(v) => {
                let t = trim(v@, CharPat::Ws);
                if t.len() == 0 {
                    r matches Ok(None)
                } else {
                    match parsed_instant(t) {
                        Ok(x) => r matches Ok(Some(ts)) && (ts.spec_secs(), ts.spec_nanos()) == x,
                        Err(e) => r matches Err(m) && m@ == "Invalid "@ + label@ + " datetime: "@ + e,
                    }
                }
            },
        },
{
    let value = match value {
        Some(v) => v,
        None => return Ok(None),
    };
    let t = trim_chars(str_chars(value.as_str()).as_slice(), &CharPat::Ws);
    if t.len() == 0 {
        return Ok(None);
    }
    let trimmed = string_from_chars(t.as_slice());
    match Timestamp::parse_rfc3339_detailed(trimmed.as_str()) {
        Ok(ts) => Ok(Some(ts)),
        Err(e) => {
            let mut m = str_chars("Invalid ");
            push_all(&mut m, str_chars(label).as_slice());
            push_all(&mut m, str_chars(" datetime: ").as_slice());
            push_all(&mut m, str_chars(e.as_str()).as_slice());
            Err(string_from_chars(m.as_slice()))
        },
    }
}

/// The URL that a content listing shows for an item: its primary route
/// between slashes.
pub open spec fn listing_url_of(c: ContentItem) -> Seq<char> {
    seq!['/'] + trim(primary_route(c), CharPat::One('/')) + seq!['/']
}

/// The URL shown for an item in a content listing.
pub fn listing_url(content: &ContentItem) -> (r: String)
    ensures
        r@ == listing_url_of(*content),
{
    let route = primary_route_chars(content);
    let mut v = vec!['/'];
    push_all(&mut v, trim_chars(route.as_slice(), &CharPat::One('/')).as_slice());
    v.push('/');
    string_from_chars(v.as_slice())
}

/// The role that the command line's role argument names: `viewer`, `author`,
/// `editor` or `owner`; anything else is refused.
pub fn parse_site_role(role: &str) -> (r: Result<SiteRole, String>)
    ensures
        role@ == "viewer"@ ==> r == Ok::<SiteRole, String>(SiteRole::Viewer),
        role@ == "author"@ ==> r == Ok::<SiteRole, String>(SiteRole::Author),
        role@ == "editor"@ ==> r == Ok::<SiteRole, String>(SiteRole::Editor),
        role@ == "owner"@ ==> r == Ok::<SiteRole, String>(SiteRole::Owner),
        !(role@ == "viewer"@ || role@ == "author"@ || role@ == "editor"@ || role@ == "owner"@) ==> (r matches Err(
            m,
        ) && m@ == "invalid site role: "@ + role@),
{
    proof {
        reveal_strlit("viewer");
        reveal_strlit("author");
        reveal_strlit("editor");
        reveal_strlit("owner");
        assert("viewer"@[0] != "author"@[0] && "viewer"@[0] != "editor"@[0] && "viewer"@[0] != "owner"@[0]);
        assert("author"@[0] != "editor"@[0] && "author"@[0] != "owner"@[0]);
        assert("editor"@[0] != "owner"@[0]);
    }
    if str_eq(role, "viewer") {
        Ok(SiteRole::Viewer)
    } else if str_eq(role, "author") {
        Ok(SiteRole::Author)
    } else if str_eq(role, "editor") {
        Ok(SiteRole::Editor)
    } else if str_eq(role, "owner") {
        Ok(SiteRole::Owner)
    } else {
        let mut m = str_chars("invalid site role: ");
        push_all(&mut m, str_chars(role).as_slice());
        Err(string_from_chars(m.as_slice()))
    }
}

} // verus!
