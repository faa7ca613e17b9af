//! The records that the site logic reads: content items, aliases, assets and
//! their variants, instants, and the enumerations stored with them.
use crate::deps::{
    parse_rfc3339, rfc3339_instant_of, string_from_chars, utc_calendar, utc_calendar_of,
    utc_rfc2822, utc_rfc2822_of,
};
use crate::errors::SiteError;
use crate::strings::{lead_len, str_chars, str_eq, trail_len, trim_chars, ws_trim, CharPat};
use vstd::prelude::*;

verus! {

/// The kind of a content item.
#[derive(Copy, Clone, Debug, PartialEq, Eq, Structural)]
pub enum PageType {
    Post,
    Page,
}

/// The lower-case name of a page type.
pub open spec fn page_type_name(p: PageType) -> Seq<char> {
    match p {
        PageType::Post => "post"@,
        PageType::Page => "page"@,
    }
}

/// The page type that a name denotes.
pub open spec fn page_type_named(s: Seq<char>) -> Option<PageType> {
    if s == "post"@ {
        Some(PageType::Post)
    } else if s == "page"@ {
        Some(PageType::Page)
    } else {
        None
    }
}

impl PageType {
    pub fn is_post(&self) -> (b: bool)
        ensures
            b == (*self == PageType::Post),
    {
        matches!(self, PageType::Post)
    }

    pub fn is_page(&self) -> (b: bool)
        ensures
            b == (*self == PageType::Page),
    {
        matches!(self, PageType::Page)
    }

    /// The template file that renders items of this type.
    pub fn template(&self) -> (r: &'static str)
        ensures
            r@ == (match *self {
                PageType::Post => "post.html"@,
                PageType::Page => "page.html"@,
            }),
    {
        match self {
            PageType::Post => "post.html",
            PageType::Page => "page.html",
        }
    }

    /// The CSS class of items of this type.
    pub fn css_class(&self) -> (r: &'static str)
        ensures
            r@ == page_type_name(*self),
    {
        match self {
            PageType::Post => "post",
            PageType::Page => "page",
        }
    }

    /// The name of the type.
    pub fn as_ref(&self) -> (r: &'static str)
        ensures
            r@ == page_type_name(*self),
    {
        match self {
            PageType::Post => "post",
            PageType::Page => "page",
        }
    }

    /// The name of the type, as its `Display` writes it.
    pub fn to_string(&self) -> (r: String)
        ensures
            r@ == page_type_name(*self),
    {
        self.as_ref().to_string()
    }

    /// Reads a page type from its name.
    pub fn from_str(value: &str) -> (r: Result<PageType, String>)
        ensures
            r matches Ok(p) ==> page_type_named(value@) == Some(p),
            r matches Err(msg) ==> page_type_named(value@) is None && msg@
                == "unsupported page type: "@ + value@,
    {
        if str_eq(value, "post") {
            Ok(PageType::Post)
        } else if str_eq(value, "page") {
            Ok(PageType::Page)
        } else {
            let mut msg = "unsupported page type: ".to_string();
            msg.append(value);
            Err(msg)
        }
    }
}

/// A page type's name reads back as that page type.
pub proof fn page_type_name_round_trip(p: PageType)
    ensures
        page_type_named(page_type_name(p)) == Some(p),
{
    reveal_strlit("post");
    reveal_strlit("page");
    assert("post"@[1] != "page"@[1]);
}

/// How a site's rendered files are published.
#[derive(Copy, Clone, Debug, PartialEq, Eq, Structural)]
pub enum PublishMethod {
    Disabled,
    S3Compatible,
    RsyncSsh,
}

pub open spec fn publish_method_name(m: PublishMethod) -> Seq<char> {
    match m {
        PublishMethod::Disabled => "disabled"@,
        PublishMethod::S3Compatible => "s3_compatible"@,
        PublishMethod::RsyncSsh => "rsync_ssh"@,
    }
}

/// The method that a (trimmed) name denotes; a blank name means disabled.
pub open spec fn publish_method_named(s: Seq<char>) -> Option<PublishMethod> {
    let m = ws_trim(s);
    if m == "disabled"@ || m.len() == 0 {
        Some(PublishMethod::Disabled)
    } else if m == "s3_compatible"@ {
        Some(PublishMethod::S3Compatible)
    } else if m == "rsync_ssh"@ {
        Some(PublishMethod::RsyncSsh)
    } else {
        None
    }
}

impl PublishMethod {
    /// The label shown to people.
    pub fn label(&self) -> (r: &'static str)
        ensures
            r@ == (match *self {
                PublishMethod::Disabled => "Disabled"@,
                PublishMethod::S3Compatible => "S3-compatible store"@,
                PublishMethod::RsyncSsh => "rsync over SSH"@,
            }),
    {
        match self {
            PublishMethod::Disabled => "Disabled",
            PublishMethod::S3Compatible => "S3-compatible store",
            PublishMethod::RsyncSsh => "rsync over SSH",
        }
    }

    /// The stored name of the method (also its `Display` form).
    pub fn as_str(&self) -> (r: &'static str)
        ensures
            r@ == publish_method_name(*self),
    {
        match self {
            PublishMethod::Disabled => "disabled",
            PublishMethod::S3Compatible => "s3_compatible",
            PublishMethod::RsyncSsh => "rsync_ssh",
        }
    }

    pub fn to_string(&self) -> (r: String)
        ensures
            r@ == publish_method_name(*self),
    {
        self.as_str().to_string()
    }

    /// Reads a method from its name, ignoring surrounding whitespace.
    pub fn from_str(s: &str) -> (r: Result<PublishMethod, SiteError>)
        ensures
            r matches Ok(m) ==> publish_method_named(s@) == Some(m),
            r matches Err(e) ==> publish_method_named(s@) is None && e == SiteError::BadRequest(
                e->BadRequest_0,
            ) && e->BadRequest_0@ == "unsupported publish method: "@ + ws_trim(s@),
    {
        let chars = str_chars(s);
        let m = trim_chars(chars.as_slice(), &CharPat::Ws);
        let ms = string_from_chars(m.as_slice());
        if str_eq(ms.as_str(), "disabled") || m.len() == 0 {
            Ok(PublishMethod::Disabled)
        } else if str_eq(ms.as_str(), "s3_compatible") {
            Ok(PublishMethod::S3Compatible)
        } else if str_eq(ms.as_str(), "rsync_ssh") {
            Ok(PublishMethod::RsyncSsh)
        } else {
            let mut msg = "unsupported publish method: ".to_string();
            msg.append(ms.as_str());
            Err(SiteError::BadRequest(msg))
        }
    }
}

/// A method's stored name reads back as that method.
pub proof fn publish_method_name_round_trip(m: PublishMethod)
    ensures
        publish_method_named(publish_method_name(m)) == Some(m),
{
    reveal_strlit("disabled");
    reveal_strlit("s3_compatible");
    reveal_strlit("rsync_ssh");
    let n = publish_method_name(m);
    assert(lead_len(n, CharPat::Ws) == 0);
    assert(trail_len(n, CharPat::Ws) == 0);
    assert(n.skip(0) =~= n);
    assert(n.take(n.len() as int) =~= n);
    assert("disabled"@[0] != "s3_compatible"@[0]);
    assert("disabled"@[0] != "rsync_ssh"@[0]);
    assert("rsync_ssh"@[0] != "s3_compatible"@[0]);
}

/// The state of a publish run.
#[derive(Copy, Clone, Debug, PartialEq, Eq, Structural)]
pub enum PublishRunStatus {
    Queued,
    Running,
    Succeeded,
    Failed,
}

impl PublishRunStatus {
    pub fn as_str(&self) -> (r: &'static str)
        ensures
            r@ == (match *self {
                PublishRunStatus::Queued => "queued"@,
                PublishRunStatus::Running => "running"@,
                PublishRunStatus::Succeeded => "succeeded"@,
                PublishRunStatus::Failed => "failed"@,
            }),
    {
        match self {
            PublishRunStatus::Queued => "queued",
            PublishRunStatus::Running => "running",
            PublishRunStatus::Succeeded => "succeeded",
            PublishRunStatus::Failed => "failed",
        }
    }
}

/// The instant, as seconds and nanoseconds since the Unix epoch, that an RFC
/// 3339 text denotes, or the text of the reason it denotes none: chrono's parse
/// error, or that the instant is outside what chrono's UTC dates can hold.
pub open spec fn parsed_instant(s: Seq<char>) -> Result<(i64, u32), Seq<char>> {
    match rfc3339_instant_of(s) {
        Ok(x) => if utc_calendar_of(x.0, x.1) is Some {
            Ok(x)
        } else {
            Err("input is out of range"@)
        },
        Err(e) => Err(e),
    }
}

/// An instant in UTC, with its calendar fields.
#[derive(Debug)]
pub struct Timestamp {
    secs: i64,
    nanos: u32,
    year: i32,
    month: u32,
    day: u32,
}

/// Whether an instant can be written as RFC 2822 text: its UTC year has at
/// most four digits and is not negative.
pub open spec fn rfc2822_ok(t: Timestamp) -> bool {
    0 <= t.spec_year() <= 9999
}

impl Timestamp {
    #[verifier::type_invariant]
    spec fn wf(self) -> bool {
        utc_calendar_of(self.secs, self.nanos) == Some((self.year, self.month, self.day))
            && 1 <= self.month <= 12 && 1 <= self.day <= 31
    }

    pub closed spec fn spec_secs(self) -> i64 {
        self.secs
    }

    pub closed spec fn spec_nanos(self) -> u32 {
        self.nanos
    }

    pub closed spec fn spec_year(self) -> i32 {
        self.year
    }

    pub closed spec fn spec_month(self) -> u32 {
        self.month
    }

    pub closed spec fn spec_day(self) -> u32 {
        self.day
    }

    pub closed spec fn spec_rfc2822(self) -> Seq<char> {
        utc_rfc2822_of(self.secs, self.nanos)
    }

    /// The instant `secs` seconds and `nanos` nanoseconds after the Unix epoch,
    /// when chrono can represent it.
    pub fn from_unix(secs: i64, nanos: u32) -> (r: Option<Timestamp>)
        ensures
            r is Some <==> utc_calendar_of(secs, nanos) is Some,
            r matches Some(t) ==> t.spec_secs() == secs && t.spec_nanos() == nanos,
    {
        match utc_calendar(secs, nanos) {
            Some((year, month, day)) => Some(Timestamp { secs, nanos, year, month, day }),
            None => None,
        }
    }

    /// The instant that an RFC 3339 text denotes.
    pub fn parse_rfc3339(s: &str) -> (r: Option<Timestamp>)
        ensures
            match parsed_instant(s@) {
                Ok(x) => r matches Some(t) && (t.spec_secs(), t.spec_nanos()) == x,
                Err(_) => r is None,
            },
    {
        match Timestamp::parse_rfc3339_detailed(s) {
            Ok(t) => Some(t),
            Err(_) => None,
        }
    }

    /// The instant that an RFC 3339 text denotes, or why it denotes none.
    pub fn parse_rfc3339_detailed(s: &str) -> (r: Result<Timestamp, String>)
        ensures
            match parsed_instant(s@) {
                Ok(x) => r matches Ok(t) && (t.spec_secs(), t.spec_nanos()) == x,
                Err(e) => r matches Err(m) && m@ == e,
            },
    {
        match parse_rfc3339(s) {
            Ok((secs, nanos)) => match Timestamp::from_unix(secs, nanos) {
                Some(t) => Ok(t),
                None => Err("input is out of range".to_string()),
            },
            Err(e) => Err(e),
        }
    }

    pub fn secs(&self) -> (r: i64)
        ensures
            r == self.spec_secs(),
    {
        self.secs
    }

    pub fn nanos(&self) -> (r: u32)
        ensures
            r == self.spec_nanos(),
    {
        self.nanos
    }

    pub fn year(&self) -> (r: i32)
        ensures
            r == self.spec_year(),
    {
        self.year
    }

    pub fn month(&self) -> (r: u32)
        ensures
            r == self.spec_month(),
            1 <= r <= 12,
    {
        proof {
            use_type_invariant(self);
        }
        self.month
    }

    pub fn day(&self) -> (r: u32)
        ensures
            r == self.spec_day(),
            1 <= r <= 31,
    {
        proof {
            use_type_invariant(self);
        }
        self.day
    }

    /// The RFC 2822 text of the instant, for a year that the format can hold.
    pub fn to_rfc2822(&self) -> (r: String)
        requires
            rfc2822_ok(*self),
        ensures
            r@ == self.spec_rfc2822(),
    {
        proof {
            use_type_invariant(self);
        }
        match utc_rfc2822(self.secs, self.nanos) {
            Some(t) => t,
            None => {
                proof {
                    assert(false);
                }
                String::new()
            },
        }
    }

    /// Whether `self` is no later than `other`.
    pub fn le(&self, other: &Timestamp) -> (b: bool)
        ensures
            b == ts_le(*self, *other),
    {
        self.secs < other.secs || (self.secs == other.secs && self.nanos <= other.nanos)
    }
}

impl Clone for Timestamp {
    fn clone(&self) -> (r: Timestamp)
        ensures
            r == *self,
    {
        proof {
            use_type_invariant(self);
        }
        Timestamp {
            secs: self.secs,
            nanos: self.nanos,
            year: self.year,
            month: self.month,
            day: self.day,
        }
    }
}

/// The order of instants.
pub open spec fn ts_le(a: Timestamp, b: Timestamp) -> bool {
    a.spec_secs() < b.spec_secs() || (a.spec_secs() == b.spec_secs() && a.spec_nanos()
        <= b.spec_nanos())
}

/// A page or a post of a site.
#[derive(Debug)]
pub struct ContentItem {
    pub id: String,
    pub site_id: String,
    pub page_type: PageType,
    pub title: String,
    pub slug: String,
    pub page_content: String,
    pub draft: bool,
    pub creator_sub: String,
    pub created_at: Timestamp,
    pub last_updated: Option<Timestamp>,
    pub published_at: Option<Timestamp>,
}

impl Clone for ContentItem {
    fn clone(&self) -> (r: ContentItem)
        ensures
            r == *self,
    {
        ContentItem {
            id: self.id.clone(),
            site_id: self.site_id.clone(),
            page_type: self.page_type,
            title: self.title.clone(),
            slug: self.slug.clone(),
            page_content: self.page_content.clone(),
            draft: self.draft,
            creator_sub: self.creator_sub.clone(),
            created_at: self.created_at.clone(),
            last_updated: match &self.last_updated {
                Some(t) => Some(t.clone()),
                None => None,
            },
            published_at: match &self.published_at {
                Some(t) => Some(t.clone()),
                None => None,
            },
        }
    }
}

/// The instant a content item counts as published at: its publish date, else
/// its creation date.
pub open spec fn publish_instant(c: ContentItem) -> Timestamp {
    match c.published_at {
        Some(t) => t,
        None => c.created_at,
    }
}

impl ContentItem {
    /// The RFC 2822 text of the instant the item counts as published at.
    pub fn content_publish_timestamp(&self) -> (r: String)
        requires
            rfc2822_ok(publish_instant(*self)),
        ensures
            r@ == publish_instant(*self).spec_rfc2822(),
    {
        match &self.published_at {
            Some(t) => t.to_rfc2822(),
            None => self.created_at.to_rfc2822(),
        }
    }
}

/// An alternative path under which a content item is reachable.
#[derive(Clone, Debug)]
pub struct ContentAlias {
    pub content_id: String,
    pub alias_path: String,
}

/// An uploaded file of a site.
#[derive(Clone, Debug)]
pub struct Asset {
    pub id: String,
    pub original_filename: String,
    pub storage_basename: String,
    pub width: Option<i32>,
    pub height: Option<i32>,
}

/// A derived file of an asset, such as a thumbnail.
#[derive(Clone, Debug)]
pub struct AssetVariant {
    pub asset_id: String,
    pub variant_kind: String,
    pub filename: String,
    pub width: Option<i32>,
    pub height: Option<i32>,
}

/// The host names under which a site is also reached, in the order stored.
#[derive(Clone, Debug)]
pub struct InternalDomains(pub Vec<String>);

impl InternalDomains {
    /// The host names.
    pub fn into_vec(self) -> (r: Vec<String>)
        ensures
            r@ == self.0@,
    {
        self.0
    }
}

impl From<Vec<String>> for InternalDomains {
    fn from(value: Vec<String>) -> (r: InternalDomains) {
        InternalDomains(value)
    }
}

impl vstd::std_specs::convert::FromSpecImpl<Vec<String>> for InternalDomains {
    open spec fn obeys_from_spec() -> bool {
        true
    }

    open spec fn from_spec(v: Vec<String>) -> InternalDomains {
        InternalDomains(v)
    }
}

/// The role of a user in a site.
#[derive(Clone, Copy, Debug, PartialEq, Eq, Structural)]
pub enum SiteRole {
    Viewer,
    Author,
    Editor,
    Owner,
    Admin,
}

impl SiteRole {
    /// Whether this is the administrator role, which belongs to users and is
    /// never given through a site membership.
    pub fn is_admin(&self) -> (r: bool)
        ensures
            r == (*self == SiteRole::Admin),
    {
        match self {
            SiteRole::Admin => true,
            _ => false,
        }
    }
}

/// A role given to a user in a site: the administrator role is refused.
pub fn check_assignable_role(role: SiteRole) -> (r: Result<(), SiteError>)
    ensures
        role != SiteRole::Admin ==> r is Ok,
        role == SiteRole::Admin ==> (r matches Err(SiteError::BadRequest(m)) && m@
            == "cannot assign admin role to a site"@),
{
    if role.is_admin() {
        return Err(SiteError::BadRequest("cannot assign admin role to a site".to_string()));
    }
    Ok(())
}

/// What a login does with the user records.
#[derive(Clone, Copy, Debug, PartialEq, Eq, Structural)]
pub enum LoginAction {
    /// Create the user as an administrator.
    CreateAdmin,
    /// Record a new login time on the existing user.
    TouchExisting,
    /// Create the user without administrator rights.
    CreateUser,
}

/// The step a login takes: while no user exists the first one becomes an
/// administrator; later, a known subject has its login time updated and an
/// unknown one becomes an ordinary user.
pub fn login_action(user_count: u64, subject_exists: bool) -> (r: LoginAction)
    ensures
        user_count == 0 ==> r == LoginAction::CreateAdmin,
        user_count > 0 && subject_exists ==> r == LoginAction::TouchExisting,
        user_count > 0 && !subject_exists ==> r == LoginAction::CreateUser,
{
    if user_count == 0 {
        LoginAction::CreateAdmin
    } else if subject_exists {
        LoginAction::TouchExisting
    } else {
        LoginAction::CreateUser
    }
}

} // verus!
