//! The calls into outside crates and into std functions that vstd leaves
//! unspecified. Each item here is trusted: its contract is believed, not proved.
use chrono::Datelike;
use quick_xml::events::Event;
use vstd::prelude::*;
use vstd::utf8::*;

verus! {

/// One match of a regular expression: per capture group, when the group took
/// part, its byte span in the haystack and the text it matched.
pub type CaptureGroups = Vec<Option<(usize, usize, String)>>;

/// What `regex::Regex::new(pattern)` followed by `captures_iter(text)` yields:
/// `None` when the pattern does not compile, else every match in order.
pub uninterp spec fn regex_captures_of(pattern: Seq<char>, text: Seq<char>) -> Option<
    Seq<Seq<Option<(usize, usize, Seq<char>)>>>,
>;

/// Whether every group of every match is a span of `text` whose ends are
/// character boundaries and whose text is what the span holds, in UTF-8 bytes.
pub open spec fn spans_of_text(
    all: Seq<Seq<Option<(usize, usize, Seq<char>)>>>,
    text: Seq<char>,
) -> bool {
    forall|i: int, g: int|
        0 <= i < all.len() && 0 <= g < all[i].len() ==> (#[trigger] all[i][g] matches Some(span)
            ==> span.0 <= span.1 && byte_range_text(text, span.0 as int, span.1 as int) == Some(
            span.2,
        ) && encode_utf8(span.2).len() == span.1 - span.0)
}

/// Compiles `pattern` with `regex::Regex::new` and collects
/// `Regex::captures_iter(text)`, each group as its `Match::start`, `Match::end`
/// and `Match::as_str`. The contract names the result and states what the
/// regex documentation promises of every group that matched: `as_str` is the
/// haystack between `start` and `end`, which are ordered character boundaries.
#[verifier::external_body]
pub(crate) fn regex_captures(pattern: &str, text: &str) -> (r: Option<Vec<CaptureGroups>>)
    ensures
        r.deep_view() == regex_captures_of(pattern@, text@),
        r matches Some(all) ==> spans_of_text(all.deep_view(), text@),
{
    let re = regex::Regex::new(pattern).ok()?;
    Some(
        re.captures_iter(text).map(
            |caps| caps.iter().map(|m| m.map(|m| (m.start(), m.end(), m.as_str().to_string()))).collect(),
        ).collect(),
    )
}

/// The parts of a parsed URL: scheme, host, path, query, fragment and its
/// serialization.
pub type UrlPartsView = (
    Seq<char>,
    Option<Seq<char>>,
    Seq<char>,
    Option<Seq<char>>,
    Option<Seq<char>>,
    Seq<char>,
);

/// The components of an absolute URL, as the `url` crate parses it.
pub struct UrlParts {
    pub scheme: String,
    pub host: Option<String>,
    pub path: String,
    pub query: Option<String>,
    pub fragment: Option<String>,
    pub serialized: String,
}

impl UrlParts {
    pub open spec fn parts(&self) -> UrlPartsView {
        (
            self.scheme@,
            match self.host {
                Some(h) => Some(h@),
                None => None,
            },
            self.path@,
            match self.query {
                Some(q) => Some(q@),
                None => None,
            },
            match self.fragment {
                Some(f) => Some(f@),
                None => None,
            },
            self.serialized@,
        )
    }
}

/// What `url::Url::parse` makes of a string, read through the accessors
/// `scheme`, `host_str`, `path`, `query`, `fragment` and `to_string`; `None`
/// when the string does not parse.
pub uninterp spec fn url_parts_of(s: Seq<char>) -> Option<UrlPartsView>;

/// `url::Url::parse`, with the parsed URL read out through its accessors. The
/// contract names the result; nothing more about URL syntax is stated.
#[verifier::external_body]
pub(crate) fn parse_url(s: &str) -> (r: Option<UrlParts>)
    ensures
        r matches Some(u) ==> url_parts_of(s@) == Some(u.parts()),
        r is None ==> url_parts_of(s@) is None,
{
    let url = url::Url::parse(s).ok()?;
    Some(
        UrlParts {
            scheme: url.scheme().to_string(),
            host: url.host_str().map(|h| h.to_string()),
            path: url.path().to_string(),
            query: url.query().map(|q| q.to_string()),
            fragment: url.fragment().map(|f| f.to_string()),
            serialized: url.to_string(),
        },
    )
}

/// The hyphenated lower-case form of the UUID that `uuid::Uuid::parse_str`
/// reads from a string, or `None` when it reads none.
pub uninterp spec fn uuid_canonical_of(s: Seq<char>) -> Option<Seq<char>>;

/// `uuid::Uuid::parse_str`, the parsed UUID written back with `to_string`. The
/// contract names the result.
#[verifier::external_body]
pub(crate) fn uuid_canonical(s: &str) -> (r: Option<String>)
    ensures
        r.deep_view() == uuid_canonical_of(s@),
{
    uuid::Uuid::parse_str(s).ok().map(|u| u.to_string())
}

/// `uuid::Uuid::now_v7` written with `to_string`: a fresh identifier made from
/// the clock and a random source. Of every outcome the contract states only
/// that the text is a UUID in canonical form: parsing it and writing it back
/// gives it unchanged.
#[verifier::external_body]
pub(crate) fn new_uuid() -> (r: String)
    ensures
        uuid_canonical_of(r@) == Some(r@),
{
    uuid::Uuid::now_v7().to_string()
}

/// For an instant given as seconds and nanoseconds since the Unix epoch, the
/// UTC year, month and day that `chrono` gives it; `None` when
/// `chrono::DateTime::from_timestamp` rejects the instant.
pub uninterp spec fn utc_calendar_of(secs: i64, nanos: u32) -> Option<(i32, u32, u32)>;

/// `chrono::DateTime::<Utc>::from_timestamp`, read through `year`, `month` and
/// `day`. The contract names the result and states the ranges that chrono
/// documents for month and day.
#[verifier::external_body]
pub(crate) fn utc_calendar(secs: i64, nanos: u32) -> (r: Option<(i32, u32, u32)>)
    ensures
        r == utc_calendar_of(secs, nanos),
        r matches Some(c) ==> 1 <= c.1 <= 12 && 1 <= c.2 <= 31,
{
    let dt = chrono::DateTime::from_timestamp(secs, nanos)?;
    Some((dt.year(), dt.month(), dt.day()))
}

/// The RFC 2822 text (such as `Tue, 1 Jul 2003 10:52:37 +0000`) that `chrono`
/// writes for an instant in UTC.
pub uninterp spec fn utc_rfc2822_of(secs: i64, nanos: u32) -> Seq<char>;

/// `chrono::DateTime::<Utc>::from_timestamp` followed by `to_rfc2822`. That
/// method panics for a year outside 0..=9999 (RFC 2822 has four-digit years),
/// so `requires` leaves such instants out. The contract states that the result
/// is there exactly when `from_timestamp` accepts the instant, and names the text.
#[verifier::external_body]
pub(crate) fn utc_rfc2822(secs: i64, nanos: u32) -> (r: Option<String>)
    requires
        utc_calendar_of(secs, nanos) matches Some(c) ==> 0 <= c.0 <= 9999,
    ensures
        r is Some <==> utc_calendar_of(secs, nanos) is Some,
        r matches Some(t) ==> t@ == utc_rfc2822_of(secs, nanos),
{
    chrono::DateTime::from_timestamp(secs, nanos).map(|dt| dt.to_rfc2822())
}

/// The instant, as seconds and nanoseconds since the Unix epoch, that
/// `chrono::DateTime::parse_from_rfc3339` reads from a string, or the text of
/// its parse error.
pub uninterp spec fn rfc3339_instant_of(s: Seq<char>) -> Result<(i64, u32), Seq<char>>;

/// `chrono::DateTime::parse_from_rfc3339`, converted to UTC and read through
/// `timestamp` and `timestamp_subsec_nanos`; an error is given as its
/// `Display` text. The contract names the result.
#[verifier::external_body]
pub(crate) fn parse_rfc3339(s: &str) -> (r: Result<(i64, u32), String>)
    ensures
        match r {
            Ok(x) => rfc3339_instant_of(s@) == Ok::<(i64, u32), Seq<char>>(x),
            Err(e) => rfc3339_instant_of(s@) == Err::<(i64, u32), Seq<char>>(e@),
        },
{
    match chrono::DateTime::parse_from_rfc3339(s) {
        Ok(parsed) => {
            let utc = parsed.with_timezone(&chrono::Utc);
            Ok((utc.timestamp(), utc.timestamp_subsec_nanos()))
        },
        Err(e) => Err(e.to_string()),
    }
}

/// The kinds of event that a WordPress export reader tells apart.
pub const XML_START: u8 = 0;

pub const XML_END: u8 = 1;

pub const XML_TEXT: u8 = 2;

pub const XML_CDATA: u8 = 3;

pub const XML_OTHER: u8 = 4;

/// One event of `quick_xml`: its kind and its payload, the element name for
/// start and end tags and the raw text for text and CDATA.
pub type XmlEvent = (u8, String);

/// What reading a whole document with `quick_xml::Reader::from_str` and
/// `read_event_into` yields: the events before `Event::Eof`, or the message of
/// the first error.
pub uninterp spec fn xml_events_of(xml: Seq<char>) -> Result<Seq<(u8, Seq<char>)>, Seq<char>>;

/// Reads every event of an XML document with `quick_xml::Reader`, each as its
/// kind and payload (read as lossy UTF-8), stopping at `Eof` or at the first
/// error, whose message is returned. The contract names the result.
#[verifier::external_body]
pub(crate) fn xml_events(xml: &str) -> (r: Result<Vec<XmlEvent>, String>)
    ensures
        match r {
            Ok(v) => xml_events_of(xml@) == Ok::<Seq<(u8, Seq<char>)>, Seq<char>>(v.deep_view()),
            Err(e) => xml_events_of(xml@) == Err::<Seq<(u8, Seq<char>)>, Seq<char>>(e@),
        },
{
    let (mut r, mut out) = (quick_xml::Reader::from_str(xml), Vec::new());
    let l = |b: &[u8]| String::from_utf8_lossy(b).to_string();
    loop {
        out.push(match r.read_event_into(&mut Vec::new()).map_err(|e| e.to_string())? {
            Event::Eof => return Ok(out),
            Event::Start(e) => (XML_START, l(e.name().0)),
            Event::End(e) => (XML_END, l(e.name().0)),
            Event::Text(e) => (XML_TEXT, l(&e)),
            Event::CData(e) => (XML_CDATA, l(&e)),
            _ => (XML_OTHER, String::new()),
        });
    }
}

/// The attributes of each start tag of a document, in order, as
/// `quick_xml::Reader` reads them until `Eof` or an error (attributes that do
/// not parse are skipped; keys and values are read as lossy UTF-8).
pub uninterp spec fn xml_start_attributes_of(xml: Seq<char>) -> Seq<Seq<(Seq<char>, Seq<char>)>>;

/// `BytesStart::attributes` of each start tag that `quick_xml::Reader` reads.
/// The contract names the result.
#[verifier::external_body]
pub(crate) fn xml_start_attributes(xml: &str) -> (r: Vec<Vec<(String, String)>>)
    ensures
        r.deep_view() == xml_start_attributes_of(xml@),
{
    let (mut r, mut out) = (quick_xml::Reader::from_str(xml), Vec::new());
    let l = |b: &[u8]| String::from_utf8_lossy(b).to_string();
    loop {
        match r.read_event_into(&mut Vec::new()) {
            Ok(Event::Start(e)) => out.push(e.attributes().flatten().map(|a| (l(a.key.0), l(&a.value))).collect()),
            Ok(Event::Eof) | Err(_) => return out,
            _ => {},
        }
    }
}

/// A `String` holding the given characters (std's `FromIterator<&char>`).
#[verifier::external_body]
pub(crate) fn string_from_chars(v: &[char]) -> (s: String)
    ensures
        s@ == v@,
{
    v.iter().collect()
}

/// What `str::to_lowercase` returns: the full Unicode lower-case mapping.
pub uninterp spec fn unicode_lowercase_of(s: Seq<char>) -> Seq<char>;

/// `str::to_lowercase`. The contract names the result and states what std
/// documents of ASCII: no ASCII capital letter is left in the result, and a
/// text of ASCII characters only is lower-cased letter by letter (so one
/// without capitals comes back unchanged).
#[verifier::external_body]
pub(crate) fn unicode_lowercase(s: &str) -> (r: String)
    ensures
        r@ == unicode_lowercase_of(s@),
        forall|i: int| 0 <= i < r@.len() ==> !('A' <= #[trigger] r@[i] <= 'Z'),
        (forall|i: int| 0 <= i < s@.len() ==> (#[trigger] s@[i] as u32) < 128) ==> r@
            == crate::strings::ascii_lower(s@),
{
    s.to_lowercase()
}

/// The characters that the UTF-8 bytes `start..end` of `s` encode, when std's
/// `str::get` accepts that range.
pub open spec fn byte_range_text(s: Seq<char>, start: int, end: int) -> Option<Seq<char>> {
    let bytes = encode_utf8(s);
    if 0 <= start <= end <= bytes.len() && is_char_boundary(bytes, start) && is_char_boundary(
        bytes,
        end,
    ) {
        Some(decode_utf8(bytes.subrange(start, end)))
    } else {
        None
    }
}

/// What `std::path::Path::file_name` returns for a path written as a string,
/// read back with `OsStr::to_str`.
/// The path syntax is that of the platform the crate is compiled for, so each
/// build has one such function.
pub uninterp spec fn path_file_name_of(p: Seq<char>) -> Option<Seq<char>>;

/// `Path::new(p).file_name()` and `OsStr::to_str`. The contract names the result.
#[verifier::external_body]
pub(crate) fn path_file_name(p: &str) -> (r: Option<String>)
    ensures
        r.deep_view() == path_file_name_of(p@),
{
    std::path::Path::new(p).file_name().and_then(|v| v.to_str()).map(|v| v.to_string())
}

/// What `std::path::Path::file_stem` returns for a path written as a string,
/// read back with `OsStr::to_str`.
/// The path syntax is that of the platform the crate is compiled for, so each
/// build has one such function.
pub uninterp spec fn path_file_stem_of(p: Seq<char>) -> Option<Seq<char>>;

/// `Path::new(p).file_stem()` and `OsStr::to_str`. The contract names the result.
#[verifier::external_body]
pub(crate) fn path_file_stem(p: &str) -> (r: Option<String>)
    ensures
        r.deep_view() == path_file_stem_of(p@),
{
    std::path::Path::new(p).file_stem().and_then(|v| v.to_str()).map(|v| v.to_string())
}

/// What `std::path::Path::extension` returns for a path written as a string,
/// read back with `OsStr::to_str`.
/// The path syntax is that of the platform the crate is compiled for, so each
/// build has one such function.
pub uninterp spec fn path_extension_of(p: Seq<char>) -> Option<Seq<char>>;

/// `Path::new(p).extension()` and `OsStr::to_str`. The contract names the result.
#[verifier::external_body]
pub(crate) fn path_extension(p: &str) -> (r: Option<String>)
    ensures
        r.deep_view() == path_extension_of(p@),
{
    std::path::Path::new(p).extension().and_then(|v| v.to_str()).map(|v| v.to_string())
}

/// The components that `std::path::Path::components` yields for a path written
/// as a string, each read with `to_string_lossy`.
/// The path syntax is that of the platform the crate is compiled for, so each
/// build has one such function.
pub uninterp spec fn path_components_of(p: Seq<char>) -> Seq<Seq<char>>;

/// `Path::new(p).components()`, each component's `as_os_str().to_string_lossy()`.
/// The contract names the result.
#[verifier::external_body]
pub(crate) fn path_components(p: &str) -> (r: Vec<String>)
    ensures
        r.deep_view() == path_components_of(p@),
{
    std::path::Path::new(p).components().map(|c| c.as_os_str().to_string_lossy().to_string()).collect()
}

/// What `std::path::Path::join` gives for a base path and a part, both
/// written as strings, read back with `to_string_lossy`.
/// The path syntax is that of the platform the crate is compiled for, so each
/// build has one such function.
pub uninterp spec fn path_join_of(base: Seq<char>, part: Seq<char>) -> Seq<char>;

/// `Path::new(base).join(part)`, read back with `to_string_lossy`. The
/// contract names the result.
#[verifier::external_body]
pub(crate) fn path_join(base: &str, part: &str) -> (r: String)
    ensures
        r@ == path_join_of(base@, part@),
{
    std::path::Path::new(base).join(part).to_string_lossy().to_string()
}

/// What `std::path::Path::parent` returns for a path written as a string,
/// read back with `to_str`.
/// The path syntax is that of the platform the crate is compiled for, so each
/// build has one such function.
pub uninterp spec fn path_parent_of(p: Seq<char>) -> Option<Seq<char>>;

/// `Path::new(p).parent()` and `Path::to_str`. The contract names the result.
#[verifier::external_body]
pub(crate) fn path_parent(p: &str) -> (r: Option<String>)
    ensures
        r.deep_view() == path_parent_of(p@),
{
    std::path::Path::new(p).parent().and_then(|v| v.to_str()).map(|v| v.to_string())
}

/// What `markdown::to_html_with_options` gives for a document with raw HTML
/// allowed and every other option at its default: the HTML, or the `Debug`
/// text of the message it fails with.
pub uninterp spec fn markdown_html_of(source: Seq<char>) -> Result<Seq<char>, Seq<char>>;

/// `markdown::to_html_with_options` with `allow_dangerous_html` set and the
/// other options at their defaults; an error is given as its `Debug` text. The
/// contract names the result.
#[verifier::external_body]
pub(crate) fn markdown_to_html(source: &str) -> (r: Result<String, String>)
    ensures
        match r {
            Ok(h) => markdown_html_of(source@) == Ok::<Seq<char>, Seq<char>>(h@),
            Err(e) => markdown_html_of(source@) == Err::<Seq<char>, Seq<char>>(e@),
        },
{
    let compile = markdown::CompileOptions { allow_dangerous_html: true, ..markdown::CompileOptions::default() };
    let options = markdown::Options { compile, ..markdown::Options::default() };
    markdown::to_html_with_options(source, &options).map_err(|e| format!("{e:?}"))
}

/// The media type that `mime_guess` guesses for a path from its extension.
pub uninterp spec fn guessed_content_type_of(path: Seq<char>) -> Seq<char>;

/// `mime_guess::from_path(path).first_or_octet_stream().essence_str()`. The
/// contract names the result and states what the crate's source shows for a
/// path without an extension: no guess, so `application/octet-stream`.
#[verifier::external_body]
pub(crate) fn guessed_content_type(path: &str) -> (r: String)
    ensures
        r@ == guessed_content_type_of(path@),
        path_extension_of(path@) is None ==> r@ == "application/octet-stream"@,
{
    mime_guess::from_path(path).first_or_octet_stream().essence_str().to_string()
}

} // verus!
