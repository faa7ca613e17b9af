//! The library's error type.
use vstd::prelude::*;

verus! {

/// What went wrong; each variant carries the detail that its message shows.
#[derive(Debug, Clone)]
pub enum SiteError {
    NotFound,
    /// The short name or id of the site.
    SiteNotFound(String),
    /// The id of the content.
    ContentNotFound(String),
    Internal(String),
    UnAuthorized(String),
    Database(String),
    Io(String),
    TeraTemplate(String),
    XmlParsing(String),
    BadRequest(String),
    MembershipNotFound(String),
}

/// The text that an error is shown as.
pub open spec fn error_message(e: SiteError) -> Seq<char> {
    match e {
        SiteError::NotFound => "Not Found"@,
        SiteError::SiteNotFound(s) => "Site Not Found: "@ + s@,
        SiteError::ContentNotFound(s) => "Content Not Found: "@ + s@,
        SiteError::Internal(s) => "Internal Error: "@ + s@,
        SiteError::UnAuthorized(s) => "Unauthorized: "@ + s@,
        SiteError::Database(s) => "Database Error: "@ + s@,
        SiteError::Io(s) => "I/O Error: "@ + s@,
        SiteError::TeraTemplate(s) => "Template Rendering Error: "@ + s@,
        SiteError::XmlParsing(s) => "XML Parsing Error: "@ + s@,
        SiteError::BadRequest(s) => "Invalid Input: "@ + s@,
        SiteError::MembershipNotFound(s) => "Membership Not Found: "@ + s@,
    }
}

fn prefixed(prefix: &str, detail: &String) -> (r: String)
    ensures
        r@ == prefix@ + detail@,
{
    let mut r = prefix.to_string();
    r.append(detail.as_str());
    r
}

impl SiteError {
    /// An internal error with the given detail.
    pub fn internal(msg: String) -> (e: SiteError)
        ensures
            e == SiteError::Internal(msg),
    {
        SiteError::Internal(msg)
    }

    /// The error's text, as its `Display` writes it.
    pub fn message(&self) -> (r: String)
        ensures
            r@ == error_message(*self),
    {
        match self {
            SiteError::NotFound => "Not Found".to_string(),
            SiteError::SiteNotFound(s) => prefixed("Site Not Found: ", s),
            SiteError::ContentNotFound(s) => prefixed("Content Not Found: ", s),
            SiteError::Internal(s) => prefixed("Internal Error: ", s),
            SiteError::UnAuthorized(s) => prefixed("Unauthorized: ", s),
            SiteError::Database(s) => prefixed("Database Error: ", s),
            SiteError::Io(s) => prefixed("I/O Error: ", s),
            SiteError::TeraTemplate(s) => prefixed("Template Rendering Error: ", s),
            SiteError::XmlParsing(s) => prefixed("XML Parsing Error: ", s),
            SiteError::BadRequest(s) => prefixed("Invalid Input: ", s),
            SiteError::MembershipNotFound(s) => prefixed("Membership Not Found: ", s),
        }
    }
}

/// The body of the answer to a failed request.
#[derive(Debug)]
pub enum ErrorBody {
    /// Plain text.
    Text(&'static str),
    /// A JSON string.
    JsonString(String),
    /// A JSON object with a `message` and one more field, named `key`.
    JsonFields { message: &'static str, key: &'static str, value: String },
    /// An HTML fragment.
    Html(String),
    /// The error page, with its title and message.
    ErrorPage { title: String, message: String },
}

/// (status, body) of the answer to an error, the body as (kind, message or
/// title, field name, text), kinds in declaration order of `ErrorBody`.
pub open spec fn error_response_of(e: SiteError) -> (u16, (u8, Seq<char>, Seq<char>, Seq<char>)) {
    match e {
        SiteError::NotFound => (404, (0, "Not Found"@, Seq::empty(), Seq::empty())),
        SiteError::Internal(m) => (500, (1, Seq::empty(), Seq::empty(), m@)),
        SiteError::Database(m) => (500, (1, Seq::empty(), Seq::empty(), m@)),
        SiteError::Io(m) => (500, (1, Seq::empty(), Seq::empty(), m@)),
        SiteError::UnAuthorized(m) => (
            401,
            (4, error_message(e), Seq::empty(), "Please log in to access this page. "@ + m@),
        ),
        SiteError::TeraTemplate(m) => (500, (3, Seq::empty(), Seq::empty(), "Template rendering error: "@ + m@)),
        SiteError::SiteNotFound(id) => (404, (2, "Site Not Found"@, "identifier"@, id@)),
        SiteError::ContentNotFound(id) => (404, (2, "Content Not Found"@, "identifier"@, id@)),
        SiteError::XmlParsing(m) => (500, (2, "XML Parsing Error"@, "details"@, m@)),
        SiteError::BadRequest(m) => (400, (2, "Invalid Input"@, "details"@, m@)),
        SiteError::MembershipNotFound(id) => (
            404,
            (2, "Site Permission Membership Not Found"@, "identifier"@, id@),
        ),
    }
}

/// An answer body as (kind, message or title, field name, text).
pub open spec fn body_view(b: ErrorBody) -> (u8, Seq<char>, Seq<char>, Seq<char>) {
    match b {
        ErrorBody::Text(t) => (0, t@, Seq::empty(), Seq::empty()),
        ErrorBody::JsonString(m) => (1, Seq::empty(), Seq::empty(), m@),
        ErrorBody::JsonFields { message, key, value } => (2, message@, key@, value@),
        ErrorBody::Html(h) => (3, Seq::empty(), Seq::empty(), h@),
        ErrorBody::ErrorPage { title, message } => (4, title@, Seq::empty(), message@),
    }
}

/// The HTTP status and body with which a failed request is answered: missing
/// things are not found, bad input is a bad request, a refused sign-in shows
/// the error page, and everything else is an internal error.
pub fn error_response(e: &SiteError) -> (r: (u16, ErrorBody))
    ensures
        (r.0, body_view(r.1)) == error_response_of(*e),
{
    match e {
        SiteError::NotFound => (404, ErrorBody::Text("Not Found")),
        SiteError::Internal(m) => (500, ErrorBody::JsonString(m.clone())),
        SiteError::Database(m) => (500, ErrorBody::JsonString(m.clone())),
        SiteError::Io(m) => (500, ErrorBody::JsonString(m.clone())),
        SiteError::UnAuthorized(m) => (
            401,
            ErrorBody::ErrorPage {
                title: e.message(),
                message: prefixed("Please log in to access this page. ", m),
            },
        ),
        SiteError::TeraTemplate(m) => (500, ErrorBody::Html(prefixed("Template rendering error: ", m))),
        SiteError::SiteNotFound(id) => (
            404,
            ErrorBody::JsonFields { message: "Site Not Found", key: "identifier", value: id.clone() },
        ),
        SiteError::ContentNotFound(id) => (
            404,
            ErrorBody::JsonFields { message: "Content Not Found", key: "identifier", value: id.clone() },
        ),
        SiteError::XmlParsing(m) => (
            500,
            ErrorBody::JsonFields { message: "XML Parsing Error", key: "details", value: m.clone() },
        ),
        SiteError::BadRequest(m) => (
            400,
            ErrorBody::JsonFields { message: "Invalid Input", key: "details", value: m.clone() },
        ),
        SiteError::MembershipNotFound(id) => (
            404,
            ErrorBody::JsonFields {
                message: "Site Permission Membership Not Found",
                key: "identifier",
                value: id.clone(),
            },
        ),
    }
}

} // verus!
