//! Reading a WordPress export (WXR): the items it holds, their dates and
//! links, and what importing one of them creates.
use crate::deps::{
    parse_url, string_from_chars, unicode_lowercase_of, url_parts_of,
    xml_events, xml_events_of, xml_start_attributes, xml_start_attributes_of,
    XmlEvent, XML_CDATA, XML_END,
    XML_START, XML_TEXT,
};
use crate::entities::{page_type_named, parsed_instant, PageType, Timestamp};
use crate::errors::SiteError;
use crate::site::{normalize_slug, slug_or};
use crate::strings::{
    chars_of, push_all, replace, replace_chars, starts_with, str_chars, str_eq, trim, trim_chars,
    CharPat,
};
use vstd::prelude::*;

verus! {

/// The fields of one `<item>` of an export.
#[derive(Debug)]
pub struct WordpressItem {
    pub post_id: Option<String>,
    pub post_type: Option<String>,
    pub title: Option<String>,
    pub slug: Option<String>,
    pub content: Option<String>,
    pub status: Option<String>,
    pub post_date: Option<String>,
    pub post_date_gmt: Option<String>,
    pub post_modified: Option<String>,
    pub post_modified_gmt: Option<String>,
    pub link: Option<String>,
    pub tags: Vec<String>,
}

/// An item, over character sequences.
#[verifier::ext_equal]
pub struct ItemView {
    pub post_id: Option<Seq<char>>,
    pub post_type: Option<Seq<char>>,
    pub title: Option<Seq<char>>,
    pub slug: Option<Seq<char>>,
    pub content: Option<Seq<char>>,
    pub status: Option<Seq<char>>,
    pub post_date: Option<Seq<char>>,
    pub post_date_gmt: Option<Seq<char>>,
    pub post_modified: Option<Seq<char>>,
    pub post_modified_gmt: Option<Seq<char>>,
    pub link: Option<Seq<char>>,
    pub tags: Seq<Seq<char>>,
}

pub open spec fn ot(o: Option<String>) -> Option<Seq<char>> {
    match o {
        Some(s) => Some(s@),
        None => None,
    }
}

impl View for WordpressItem {
    type V = ItemView;

    open spec fn view(&self) -> ItemView {
        ItemView {
            post_id: ot(self.post_id),
            post_type: ot(self.post_type),
            title: ot(self.title),
            slug: ot(self.slug),
            content: ot(self.content),
            status: ot(self.status),
            post_date: ot(self.post_date),
            post_date_gmt: ot(self.post_date_gmt),
            post_modified: ot(self.post_modified),
            post_modified_gmt: ot(self.post_modified_gmt),
            link: ot(self.link),
            tags: self.tags@.map_values(|t: String| t@),
        }
    }
}

/// An item with no fields.
pub open spec fn empty_item() -> ItemView {
    ItemView {
        post_id: None,
        post_type: None,
        title: None,
        slug: None,
        content: None,
        status: None,
        post_date: None,
        post_date_gmt: None,
        post_modified: None,
        post_modified_gmt: None,
        link: None,
        tags: Seq::empty(),
    }
}

impl WordpressItem {
    pub fn new() -> (r: WordpressItem)
        ensures
            r@ == empty_item(),
    {
        let r = WordpressItem {
            post_id: None,
            post_type: None,
            title: None,
            slug: None,
            content: None,
            status: None,
            post_date: None,
            post_date_gmt: None,
            post_modified: None,
            post_modified_gmt: None,
            link: None,
            tags: Vec::new(),
        };
        proof {
            assert(r@ =~= empty_item());
        }
        r
    }
}

/// An item after the text of one of its elements: the element's field takes
/// the value, and a `category` in the `post_tag` domain adds a tag.
pub open spec fn assign_field(
    item: ItemView,
    tag: Seq<char>,
    domain: Option<Seq<char>>,
    value: Seq<char>,
) -> ItemView {
    if tag == "title"@ {
        ItemView { title: Some(value), ..item }
    } else if tag == "link"@ {
        ItemView { link: Some(value), ..item }
    } else if tag == "wp:post_id"@ {
        ItemView { post_id: Some(value), ..item }
    } else if tag == "wp:post_name"@ {
        ItemView { slug: Some(value), ..item }
    } else if tag == "wp:post_type"@ {
        ItemView { post_type: Some(value), ..item }
    } else if tag == "wp:status"@ {
        ItemView { status: Some(value), ..item }
    } else if tag == "wp:post_date"@ {
        ItemView { post_date: Some(value), ..item }
    } else if tag == "wp:post_date_gmt"@ {
        ItemView { post_date_gmt: Some(value), ..item }
    } else if tag == "wp:post_modified"@ {
        ItemView { post_modified: Some(value), ..item }
    } else if tag == "wp:post_modified_gmt"@ {
        ItemView { post_modified_gmt: Some(value), ..item }
    } else if tag == "content:encoded"@ {
        ItemView { content: Some(value), ..item }
    } else if tag == "category"@ && domain == Some("post_tag"@) {
        ItemView { tags: item.tags.push(value), ..item }
    } else {
        item
    }
}

/// Each date element of an item fills its own field and leaves the other
/// three dates as they were: `wp:post_date`, `wp:post_date_gmt`,
/// `wp:post_modified` and `wp:post_modified_gmt` set the post date, the post
/// date in UTC, the modification date and the modification date in UTC.
pub proof fn date_elements_fill_their_own_fields(
    item: ItemView,
    domain: Option<Seq<char>>,
    value: Seq<char>,
)
    ensures
        ({
            let r = assign_field(item, "wp:post_date"@, domain, value);
            r.post_date == Some(value) && r.post_date_gmt == item.post_date_gmt && r.post_modified
                == item.post_modified && r.post_modified_gmt == item.post_modified_gmt
        }),
        ({
            let r = assign_field(item, "wp:post_date_gmt"@, domain, value);
            r.post_date_gmt == Some(value) && r.post_date == item.post_date && r.post_modified
                == item.post_modified && r.post_modified_gmt == item.post_modified_gmt
        }),
        ({
            let r = assign_field(item, "wp:post_modified"@, domain, value);
            r.post_modified == Some(value) && r.post_date == item.post_date && r.post_date_gmt
                == item.post_date_gmt && r.post_modified_gmt == item.post_modified_gmt
        }),
        ({
            let r = assign_field(item, "wp:post_modified_gmt"@, domain, value);
            r.post_modified_gmt == Some(value) && r.post_date == item.post_date && r.post_date_gmt
                == item.post_date_gmt && r.post_modified == item.post_modified
        }),
{
    reveal_strlit("title");
    reveal_strlit("link");
    reveal_strlit("wp:post_id");
    reveal_strlit("wp:post_name");
    reveal_strlit("wp:post_type");
    reveal_strlit("wp:status");
    reveal_strlit("wp:post_date");
    reveal_strlit("wp:post_date_gmt");
    reveal_strlit("wp:post_modified");
    reveal_strlit("wp:post_modified_gmt");
    assert("title"@.len() == 5 && "link"@.len() == 4 && "wp:post_id"@.len() == 10);
    assert("wp:status"@.len() == 9 && "wp:post_name"@.len() == 12 && "wp:post_type"@.len() == 12);
    assert("wp:post_date"@.len() == 12 && "wp:post_date_gmt"@.len() == 16);
    assert("wp:post_modified"@.len() == 16 && "wp:post_modified_gmt"@.len() == 20);
    assert("wp:post_date_gmt"@[8] != "wp:post_modified"@[8]);
    assert("wp:post_date"@[8] != "wp:post_name"@[8]);
    assert("wp:post_date"@[8] != "wp:post_type"@[8]);
}

/// The other elements of an item fill their own field and change nothing
/// else: the title, the link, the post id, the slug (`wp:post_name`), the
/// post type, the status and the body (`content:encoded`). A `category` in
/// the `post_tag` domain appends its text to the tags; any other element
/// leaves the item as it was.
pub proof fn item_elements_fill_their_own_fields(
    item: ItemView,
    domain: Option<Seq<char>>,
    value: Seq<char>,
)
    ensures
        assign_field(item, "title"@, domain, value) == (ItemView { title: Some(value), ..item }),
        assign_field(item, "link"@, domain, value) == (ItemView { link: Some(value), ..item }),
        assign_field(item, "wp:post_id"@, domain, value) == (ItemView {
            post_id: Some(value),
            ..item
        }),
        assign_field(item, "wp:post_name"@, domain, value) == (ItemView { slug: Some(value), ..item }),
        assign_field(item, "wp:post_type"@, domain, value) == (ItemView {
            post_type: Some(value),
            ..item
        }),
        assign_field(item, "wp:status"@, domain, value) == (ItemView { status: Some(value), ..item }),
        assign_field(item, "content:encoded"@, domain, value) == (ItemView {
            content: Some(value),
            ..item
        }),
        assign_field(item, "category"@, Some("post_tag"@), value) == (ItemView {
            tags: item.tags.push(value),
            ..item
        }),
        domain != Some("post_tag"@) ==> assign_field(item, "category"@, domain, value) == item,
{
    reveal_strlit("title");
    reveal_strlit("link");
    reveal_strlit("wp:post_id");
    reveal_strlit("wp:post_name");
    reveal_strlit("wp:post_type");
    reveal_strlit("wp:status");
    reveal_strlit("wp:post_date");
    reveal_strlit("wp:post_date_gmt");
    reveal_strlit("wp:post_modified");
    reveal_strlit("wp:post_modified_gmt");
    reveal_strlit("content:encoded");
    reveal_strlit("category");
    assert("title"@.len() == 5 && "link"@.len() == 4 && "wp:post_id"@.len() == 10);
    assert("wp:status"@.len() == 9 && "wp:post_name"@.len() == 12 && "wp:post_type"@.len() == 12);
    assert("wp:post_date"@.len() == 12 && "wp:post_date_gmt"@.len() == 16);
    assert("wp:post_modified"@.len() == 16 && "wp:post_modified_gmt"@.len() == 20);
    assert("content:encoded"@.len() == 15 && "category"@.len() == 8);
    assert("wp:post_name"@[8] != "wp:post_type"@[8]);
    assert("wp:post_type"@[8] != "wp:post_date"@[8]);
    assert("wp:post_name"@[8] != "wp:post_date"@[8]);
}

fn owned(s: &str) -> (r: String)
    ensures
        r@ == s@,
{
    string_from_chars(str_chars(s).as_slice())
}

/// Records the text of an element of an item in the item.
pub fn assign_wordpress_field(
    item: &mut WordpressItem,
    tag: &str,
    category_domain: Option<&str>,
    value: &str,
)
    ensures
        final(item)@ == assign_field(
            old(item)@,
            tag@,
            match category_domain {
                Some(d) => Some(d@),
                None => None,
            },
            value@,
        ),
{
    let v = owned(value);
    if str_eq(tag, "title") {
        item.title = Some(v);
    } else if str_eq(tag, "link") {
        item.link = Some(v);
    } else if str_eq(tag, "wp:post_id") {
        item.post_id = Some(v);
    } else if str_eq(tag, "wp:post_name") {
        item.slug = Some(v);
    } else if str_eq(tag, "wp:post_type") {
        item.post_type = Some(v);
    } else if str_eq(tag, "wp:status") {
        item.status = Some(v);
    } else if str_eq(tag, "wp:post_date") {
        item.post_date = Some(v);
    } else if str_eq(tag, "wp:post_date_gmt") {
        item.post_date_gmt = Some(v);
    } else if str_eq(tag, "wp:post_modified") {
        item.post_modified = Some(v);
    } else if str_eq(tag, "wp:post_modified_gmt") {
        item.post_modified_gmt = Some(v);
    } else if str_eq(tag, "content:encoded") {
        item.content = Some(v);
    } else if str_eq(tag, "category") && match category_domain {
        Some(d) => str_eq(d, "post_tag"),
        None => false,
    } {
        let ghost before = item.tags@;
        item.tags.push(v);
        proof {
            assert(item.tags@.map_values(|t: String| t@) =~= before.map_values(|t: String| t@).push(
                value@,
            ));
        }
    }
    proof {
        assert(item@ =~= assign_field(
            old(item)@,
            tag@,
            match category_domain {
                Some(d) => Some(d@),
                None => None,
            },
            value@,
        ));
    }
}

/// What reading an export has gathered: the finished items, the item being
/// read, the current element, the current category's domain, whether an item
/// is open, and how many start tags have been read.
#[verifier::ext_equal]
pub struct ReadState {
    pub items: Seq<ItemView>,
    pub current: ItemView,
    pub tag: Seq<char>,
    pub domain: Option<Seq<char>>,
    pub in_item: bool,
    pub starts: nat,
}

/// One attribute list per start tag.
pub type StartAttrs = Seq<Seq<(Seq<char>, Seq<char>)>>;

/// The value of the first `domain` attribute.
pub open spec fn domain_attr(attrs: Seq<(Seq<char>, Seq<char>)>) -> Option<Seq<char>>
    decreases attrs.len(),
{
    if attrs.len() == 0 {
        None
    } else if attrs[0].0 == "domain"@ {
        Some(attrs[0].1)
    } else {
        domain_attr(attrs.drop_first())
    }
}

/// The attributes of the `n`-th start tag (none when there are fewer).
pub open spec fn attrs_at(attrs: StartAttrs, n: nat) -> Seq<(Seq<char>, Seq<char>)> {
    if n < attrs.len() {
        attrs[n as int]
    } else {
        Seq::empty()
    }
}

/// The state after one event of an export: an `item` start opens an item, a
/// start inside one makes its name the current element (and a `category`
/// start reads its domain), an end closes the item or clears the element,
/// and the text (trimmed) or CDATA of an element of an open item is recorded.
pub open spec fn read_step(st: ReadState, ev: (u8, Seq<char>), attrs: StartAttrs) -> ReadState {
    let (kind, payload) = ev;
    if kind == XML_START {
        let st = ReadState { starts: st.starts + 1, ..st };
        if payload == "item"@ {
            ReadState { in_item: true, current: empty_item(), domain: None, ..st }
        } else if st.in_item {
            ReadState {
                domain: if payload == "category"@ {
                    domain_attr(attrs_at(attrs, (st.starts - 1) as nat))
                } else {
                    None
                },
                tag: payload,
                ..st
            }
        } else {
            st
        }
    } else if kind == XML_END {
        if payload == "item"@ && st.in_item {
            ReadState {
                in_item: false,
                items: st.items.push(st.current),
                current: empty_item(),
                domain: None,
                tag: Seq::empty(),
                ..st
            }
        } else if payload == "category"@ {
            ReadState { domain: None, tag: Seq::empty(), ..st }
        } else {
            ReadState { tag: Seq::empty(), ..st }
        }
    } else if kind == XML_TEXT && st.in_item {
        ReadState {
            current: assign_field(st.current, st.tag, st.domain, trim(payload, CharPat::Ws)),
            ..st
        }
    } else if kind == XML_CDATA && st.in_item {
        ReadState { current: assign_field(st.current, st.tag, st.domain, payload), ..st }
    } else {
        st
    }
}

pub open spec fn read_events(events: Seq<(u8, Seq<char>)>, attrs: StartAttrs) -> ReadState
    decreases events.len(),
{
    if events.len() == 0 {
        ReadState {
            items: Seq::empty(),
            current: empty_item(),
            tag: Seq::empty(),
            domain: None,
            in_item: false,
            starts: 0,
        }
    } else {
        read_step(read_events(events.drop_last(), attrs), events.last(), attrs)
    }
}

pub open spec fn item_views(s: Seq<WordpressItem>) -> Seq<ItemView> {
    s.map_values(|i: WordpressItem| i@)
}

fn clone_opt(o: &Option<String>) -> (r: Option<String>)
    ensures
        r == *o,
{
    match o {
        Some(s) => Some(s.clone()),
        None => None,
    }
}

fn clone_item(item: &WordpressItem) -> (r: WordpressItem)
    ensures
        r@ == item@,
{
    let mut tags: Vec<String> = Vec::new();
    let mut i: usize = 0;
    while i < item.tags.len()
        invariant
            0 <= i <= item.tags@.len(),
            tags@.len() == i,
            forall|j: int| 0 <= j < i ==> (#[trigger] tags@[j])@ == item.tags@[j]@,
        decreases item.tags@.len() - i,
    {
        tags.push(item.tags[i].clone());
        i = i + 1;
    }
    let r = WordpressItem {
        post_id: clone_opt(&item.post_id),
        post_type: clone_opt(&item.post_type),
        title: clone_opt(&item.title),
        slug: clone_opt(&item.slug),
        content: clone_opt(&item.content),
        status: clone_opt(&item.status),
        post_date: clone_opt(&item.post_date),
        post_date_gmt: clone_opt(&item.post_date_gmt),
        post_modified: clone_opt(&item.post_modified),
        post_modified_gmt: clone_opt(&item.post_modified_gmt),
        link: clone_opt(&item.link),
        tags,
    };
    proof {
        assert(r@.tags =~= item@.tags);
        assert(r@ =~= item@);
    }
    r
}

fn domain_of_attrs(attrs: &Vec<(String, String)>) -> (r: Option<String>)
    ensures
        ot(r) == domain_attr(attrs.deep_view()),
{
    let ghost av = attrs.deep_view();
    let mut i: usize = 0;
    proof {
        assert(av.skip(0) =~= av);
    }
    while i < attrs.len()
        invariant
            0 <= i <= attrs@.len(),
            av == attrs.deep_view(),
            domain_attr(av) == domain_attr(av.skip(i as int)),
        decreases attrs@.len() - i,
    {
        proof {
            assert(av.skip(i as int)[0] == av[i as int]);
            assert(av.skip(i as int).drop_first() =~= av.skip(i + 1));
        }
        if str_eq(attrs[i].0.as_str(), "domain") {
            return Some(attrs[i].1.clone());
        }
        i = i + 1;
    }
    None
}

fn domain_at(attrs: &Vec<Vec<(String, String)>>, n: usize) -> (r: Option<String>)
    ensures
        ot(r) == domain_attr(attrs_at(attrs.deep_view(), n as nat)),
{
    if n < attrs.len() {
        proof {
            assert(attrs.deep_view()[n as int] == attrs@[n as int].deep_view());
        }
        domain_of_attrs(&attrs[n])
    } else {
        proof {
            assert(domain_attr(Seq::<(Seq<char>, Seq<char>)>::empty()) is None);
        }
        None
    }
}

/// The items of an export, from its events in order (as the reader yields
/// them before the end of the document) and the attributes of its start tags:
/// each `<item>` gathers the text of its elements until it closes.
pub fn items_from_events(events: &[XmlEvent], attrs: &Vec<Vec<(String, String)>>) -> (r: Vec<
    WordpressItem,
>)
    ensures
        item_views(r@) == read_events(events.deep_view(), attrs.deep_view()).items,
{
    let ghost evs = events.deep_view();
    let ghost av = attrs.deep_view();
    let mut items: Vec<WordpressItem> = Vec::new();
    let mut current = WordpressItem::new();
    let mut tag: String = String::new();
    let mut domain: Option<String> = None;
    let mut in_item = false;
    let mut starts: usize = 0;
    let mut i: usize = 0;
    proof {
        assert(evs.take(0) =~= Seq::<(u8, Seq<char>)>::empty());
        assert(item_views(items@) =~= Seq::<ItemView>::empty());
    }
    while i < events.len()
        invariant
            0 <= i <= events@.len(),
            starts <= i,
            evs == events.deep_view(),
            av == attrs.deep_view(),
            (ReadState {
                items: item_views(items@),
                current: current@,
                tag: tag@,
                domain: ot(domain),
                in_item,
                starts: starts as nat,
            }) == read_events(evs.take(i as int), av),
        decreases events@.len() - i,
    {
        proof {
            assert(evs.take(i + 1).drop_last() =~= evs.take(i as int));
            assert(evs.take(i + 1).last() == events@[i as int].deep_view());
        }
        let ghost st0 = read_events(evs.take(i as int), av);
        let ev = &events[i];
        if ev.0 == XML_START {
            let n = starts;
            starts = starts + 1;
            if str_eq(ev.1.as_str(), "item") {
                in_item = true;
                current = WordpressItem::new();
                domain = None;
            } else if in_item {
                domain = if str_eq(ev.1.as_str(), "category") {
                    domain_at(attrs, n)
                } else {
                    None
                };
                tag = ev.1.clone();
            }
        } else if ev.0 == XML_END {
            if str_eq(ev.1.as_str(), "item") && in_item {
                in_item = false;
                let ghost before = items@;
                items.push(clone_item(&current));
                proof {
                    assert(item_views(items@) =~= item_views(before).push(current@));
                }
                current = WordpressItem::new();
                domain = None;
            } else if str_eq(ev.1.as_str(), "category") {
                domain = None;
            }
            tag = String::new();
        } else if ev.0 == XML_TEXT && in_item {
            let value = string_from_chars(
                trim_chars(str_chars(ev.1.as_str()).as_slice(), &CharPat::Ws).as_slice(),
            );
            match &domain {
                Some(d) => assign_wordpress_field(&mut current, tag.as_str(), Some(d.as_str()), value.as_str()),
                None => assign_wordpress_field(&mut current, tag.as_str(), None, value.as_str()),
            }
        } else if ev.0 == XML_CDATA && in_item {
            match &domain {
                Some(d) => assign_wordpress_field(&mut current, tag.as_str(), Some(d.as_str()), ev.1.as_str()),
                None => assign_wordpress_field(&mut current, tag.as_str(), None, ev.1.as_str()),
            }
        }
        proof {
            assert((ReadState {
                items: item_views(items@),
                current: current@,
                tag: tag@,
                domain: ot(domain),
                in_item,
                starts: starts as nat,
            }) =~= read_step(st0, evs[i as int], av));
        }
        i = i + 1;
    }
    proof {
        assert(evs.take(i as int) =~= evs);
    }
    items
}

/// The items of an export, or the reader's error.
pub open spec fn wxr_items(xml: Seq<char>) -> Result<Seq<ItemView>, Seq<char>> {
    match xml_events_of(xml) {
        Ok(events) => Ok(read_events(events, xml_start_attributes_of(xml)).items),
        Err(e) => Err(e),
    }
}

/// The items of a WordPress export; an XML error is a parsing error.
pub fn parse_wordpress_wxr(xml: &str) -> (r: Result<Vec<WordpressItem>, SiteError>)
    ensures
        match wxr_items(xml@) {
            Ok(items) => r matches Ok(v) && item_views(v@) == items,
            Err(msg) => r matches Err(e) && e == SiteError::XmlParsing(e->XmlParsing_0)
                && e->XmlParsing_0@ == msg,
        },
{
    match xml_events(xml) {
        Ok(events) => {
            let attrs = xml_start_attributes(xml);
            Ok(items_from_events(events.as_slice(), &attrs))
        },
        Err(msg) => Err(SiteError::XmlParsing(msg)),
    }
}

/// The instant of a WordPress date (`YYYY-MM-DD HH:MM:SS`, read as UTC), as
/// seconds and nanoseconds; `None` when blank, zero or unreadable.
pub open spec fn wp_instant(value: Seq<char>) -> Option<(i64, u32)> {
    let t = trim(value, CharPat::Ws);
    if t.len() == 0 || t == "0000-00-00 00:00:00"@ {
        None
    } else {
        match parsed_instant(replace(t, " "@, "T"@) + "Z"@) {
            Ok(x) => Some(x),
            Err(_) => None,
        }
    }
}

pub open spec fn instant_of(t: Option<Timestamp>) -> Option<(i64, u32)> {
    match t {
        Some(t) => Some((t.spec_secs(), t.spec_nanos())),
        None => None,
    }
}

/// The instant of a WordPress date.
pub fn wordpress_date_to_utc(value: &str) -> (r: Option<Timestamp>)
    ensures
        instant_of(r) == wp_instant(value@),
{
    let t = trim_chars(str_chars(value).as_slice(), &CharPat::Ws);
    if t.len() == 0 {
        return None;
    }
    let ts = string_from_chars(t.as_slice());
    if str_eq(ts.as_str(), "0000-00-00 00:00:00") {
        return None;
    }
    proof {
        reveal_strlit(" ");
    }
    let mut v = replace_chars(t.as_slice(), chars_of(" ").as_slice(), chars_of("T").as_slice());
    v.push('Z');
    proof {
        reveal_strlit("Z");
        assert(v@ =~= replace(t@, " "@, "T"@) + "Z"@);
    }
    Timestamp::parse_rfc3339(string_from_chars(v.as_slice()).as_str())
}

pub open spec fn opt_instant(o: Option<Seq<char>>) -> Option<(i64, u32)> {
    match o {
        Some(v) => wp_instant(v),
        None => None,
    }
}

/// The instant of the GMT date when it reads, else of the local date.
pub open spec fn resolved_instant(gmt: Option<Seq<char>>, local: Option<Seq<char>>) -> Option<(i64, u32)> {
    match opt_instant(gmt) {
        Some(x) => Some(x),
        None => opt_instant(local),
    }
}

/// The instant of an item's date: its GMT form when it reads, else its local form.
pub fn resolve_wordpress_timestamp(gmt_value: Option<&str>, local_value: Option<&str>) -> (r: Option<
    Timestamp,
>)
    ensures
        instant_of(r) == resolved_instant(
            match gmt_value {
                Some(v) => Some(v@),
                None => None,
            },
            match local_value {
                Some(v) => Some(v@),
                None => None,
            },
        ),
{
    let g = match gmt_value {
        Some(v) => wordpress_date_to_utc(v),
        None => None,
    };
    match g {
        Some(t) => Some(t),
        None => match local_value {
            Some(v) => wordpress_date_to_utc(v),
            None => None,
        },
    }
}

/// The alias path of an item's permalink: the URL's path and query, rooted;
/// a root-relative link as it is; `None` for anything else.
pub open spec fn link_alias_of(link: Seq<char>) -> Option<Seq<char>> {
    match url_parts_of(link) {
        Some(u) => {
            let path = match u.3 {
                Some(q) => u.2 + seq!['?'] + q,
                None => u.2,
            };
            let rooted = if starts_with(path, seq!['/']) {
                path
            } else {
                seq!['/'] + path
            };
            if rooted.len() == 0 {
                None
            } else {
                Some(rooted)
            }
        },
        None => if starts_with(link, seq!['/']) {
            Some(link)
        } else {
            None
        },
    }
}

/// The alias path under which an imported item keeps its old permalink.
pub fn wordpress_link_to_alias(link: &str) -> (r: Option<String>)
    ensures
        ot(r) == link_alias_of(link@),
{
    match parse_url(link) {
        Some(u) => {
            let mut path = str_chars(u.path.as_str());
            match &u.query {
                Some(q) => {
                    path.push('?');
                    push_all(&mut path, str_chars(q.as_str()).as_slice());
                },
                None => {},
            }
            proof {
                let p = u.parts();
                assert(url_parts_of(link@) == Some(p));
                let sp = match p.3 {
                    Some(q) => p.2 + seq!['?'] + q,
                    None => p.2,
                };
                assert(path@ =~= sp);
            }
            let rooted = if path.len() > 0 && path[0] == '/' {
                proof {
                    assert(path@.take(1) =~= seq!['/']);
                }
                path
            } else {
                proof {
                    if path@.len() > 0 {
                        assert(path@.take(1)[0] != seq!['/'][0]);
                    }
                }
                let mut v = vec!['/'];
                push_all(&mut v, path.as_slice());
                v
            };
            proof {
                let p = u.parts();
                assert(url_parts_of(link@) == Some(p));
            }
            if rooted.len() == 0 {
                None
            } else {
                Some(string_from_chars(rooted.as_slice()))
            }
        },
        None => {
            let chars = str_chars(link);
            if chars.len() > 0 && chars[0] == '/' {
                proof {
                    assert(chars@.take(1) =~= seq!['/']);
                }
                Some(owned(link))
            } else {
                proof {
                    if chars@.len() > 0 {
                        assert(chars@.take(1)[0] != seq!['/'][0]);
                    }
                }
                None
            }
        },
    }
}

/// What importing an item creates: a content item of its type, with its
/// title, slug, body, draft state, tags and dates, and the alias paths that
/// keep its old addresses.
#[derive(Debug)]
pub struct WordpressImport {
    pub page_type: PageType,
    pub title: String,
    pub slug: String,
    pub content: String,
    pub draft: bool,
    pub tags: Vec<String>,
    pub created_at: Option<Timestamp>,
    pub updated_at: Option<Timestamp>,
    pub published_at: Option<Timestamp>,
    pub known_aliases: Vec<String>,
}

/// The page type of an item, when its trimmed type names one.
pub open spec fn import_type(item: ItemView) -> Option<PageType> {
    match item.post_type {
        Some(t) if trim(t, CharPat::Ws).len() > 0 => page_type_named(trim(t, CharPat::Ws)),
        _ => None,
    }
}

pub open spec fn import_title(item: ItemView) -> Seq<char> {
    match item.title {
        Some(t) => t,
        None => "Untitled"@,
    }
}

/// The item's slug when not blank, else one made from its title.
pub open spec fn import_slug(item: ItemView) -> Seq<char> {
    match item.slug {
        Some(s) if trim(s, CharPat::Ws).len() > 0 => s,
        _ => slug_or(unicode_lowercase_of(import_title(item)), "post"@),
    }
}

/// An item is a draft unless its status is `publish`.
pub open spec fn import_draft(item: ItemView) -> bool {
    match item.status {
        Some(s) => s != "publish"@,
        None => true,
    }
}

/// The alias paths of an item: `/?p=<id>` for its id, then its permalink's path.
pub open spec fn import_aliases(item: ItemView) -> Seq<Seq<char>> {
    let by_id = match item.post_id {
        Some(id) if trim(id, CharPat::Ws).len() > 0 => seq!["/?p="@ + trim(id, CharPat::Ws)],
        _ => Seq::empty(),
    };
    match item.link {
        Some(l) => match link_alias_of(l) {
            Some(a) => by_id.push(a),
            None => by_id,
        },
        None => by_id,
    }
}

fn clone_ts(t: &Option<Timestamp>) -> (r: Option<Timestamp>)
    ensures
        r == *t,
{
    match t {
        Some(x) => Some(x.clone()),
        None => None,
    }
}

fn opt_str(o: &Option<String>) -> (r: Option<&str>)
    ensures
        match r {
            Some(s) => o matches Some(x) && s@ == x@,
            None => o is None,
        },
{
    match o {
        Some(s) => Some(s.as_str()),
        None => None,
    }
}

/// What importing an item creates, or `None` when its type is not a page type.
pub fn plan_wordpress_import(item: &WordpressItem) -> (r: Option<WordpressImport>)
    ensures
        match import_type(item@) {
            None => r is None,
            Some(pt) => r matches Some(p) && p.page_type == pt && p.title@ == import_title(item@)
                && p.slug@ == import_slug(item@) && p.content@ == (match item@.content {
                Some(c) => c,
                None => Seq::empty(),
            }) && p.draft == import_draft(item@) && p.tags@.map_values(|t: String| t@)
                == item@.tags && instant_of(p.created_at) == resolved_instant(
                item@.post_date_gmt,
                item@.post_date,
            ) && instant_of(p.updated_at) == resolved_instant(
                item@.post_modified_gmt,
                item@.post_modified,
            ) && p.published_at == (if p.draft {
                None
            } else {
                p.created_at
            }) && p.known_aliases@.map_values(|a: String| a@) == import_aliases(item@),
        },
{
    let page_type = match &item.post_type {
        Some(t) => {
            let tt = trim_chars(str_chars(t.as_str()).as_slice(), &CharPat::Ws);
            if tt.len() == 0 {
                return None;
            }
            match PageType::from_str(string_from_chars(tt.as_slice()).as_str()) {
                Ok(p) => p,
                Err(_) => return None,
            }
        },
        None => return None,
    };
    let title = match &item.title {
        Some(t) => t.clone(),
        None => "Untitled".to_string(),
    };
    let slug = match &item.slug {
        Some(s) => {
            if trim_chars(str_chars(s.as_str()).as_slice(), &CharPat::Ws).len() > 0 {
                s.clone()
            } else {
                normalize_slug(title.as_str())
            }
        },
        None => normalize_slug(title.as_str()),
    };
    let content = match &item.content {
        Some(c) => c.clone(),
        None => String::new(),
    };
    let draft = match &item.status {
        Some(s) => !str_eq(s.as_str(), "publish"),
        None => true,
    };
    let mut tags: Vec<String> = Vec::new();
    let mut i: usize = 0;
    while i < item.tags.len()
        invariant
            0 <= i <= item.tags@.len(),
            tags@.len() == i,
            forall|j: int| 0 <= j < i ==> (#[trigger] tags@[j])@ == item.tags@[j]@,
        decreases item.tags@.len() - i,
    {
        tags.push(item.tags[i].clone());
        i = i + 1;
    }
    proof {
        assert(tags@.map_values(|t: String| t@) =~= item@.tags);
    }
    let created_at = resolve_wordpress_timestamp(opt_str(&item.post_date_gmt), opt_str(&item.post_date));
    let updated_at = resolve_wordpress_timestamp(
        opt_str(&item.post_modified_gmt),
        opt_str(&item.post_modified),
    );
    let published_at = if draft {
        None
    } else {
        clone_ts(&created_at)
    };
    let mut known_aliases: Vec<String> = Vec::new();
    match &item.post_id {
        Some(id) => {
            let t = trim_chars(str_chars(id.as_str()).as_slice(), &CharPat::Ws);
            if t.len() > 0 {
                let mut a = chars_of("/?p=");
                push_all(&mut a, t.as_slice());
                known_aliases.push(string_from_chars(a.as_slice()));
            }
        },
        None => {},
    }
    match &item.link {
        Some(l) => match wordpress_link_to_alias(l.as_str()) {
            Some(a) => known_aliases.push(a),
            None => {},
        },
        None => {},
    }
    proof {
        assert(known_aliases@.map_values(|a: String| a@) =~= import_aliases(item@));
    }
    Some(
        WordpressImport {
            page_type,
            title,
            slug,
            content,
            draft,
            tags,
            created_at,
            updated_at,
            published_at,
            known_aliases,
        },
    )
}

/// The paths in order, each once.
pub open spec fn distinct_paths(paths: Seq<Seq<char>>) -> Seq<Seq<char>>
    decreases paths.len(),
{
    if paths.len() == 0 {
        Seq::empty()
    } else {
        let prev = distinct_paths(paths.drop_last());
        if prev.contains(paths.last()) {
            prev
        } else {
            prev.push(paths.last())
        }
    }
}

/// The alias paths created for an imported item are its paths with repeats
/// dropped: none occurs twice, and every given path is among them.
pub proof fn alias_paths_each_once(paths: Seq<Seq<char>>)
    ensures
        distinct_paths(paths).no_duplicates(),
        forall|x: Seq<char>| #[trigger] distinct_paths(paths).contains(x) <==> paths.contains(x),
    decreases paths.len(),
{
    if paths.len() > 0 {
        let d = paths.drop_last();
        alias_paths_each_once(d);
        let prev = distinct_paths(d);
        assert(paths =~= d.push(paths.last()));
        assert forall|x: Seq<char>| #[trigger] distinct_paths(paths).contains(x) <==> paths.contains(x) by {
            if paths.contains(x) && !d.contains(x) {
                let k = choose|k: int| 0 <= k < paths.len() && paths[k] == x;
                if k < d.len() {
                    assert(d[k] == x);
                }
            }
            if d.contains(x) {
                let k = choose|k: int| 0 <= k < d.len() && d[k] == x;
                assert(paths[k] == x);
            }
            if !prev.contains(paths.last()) {
                let p2 = prev.push(paths.last());
                if p2.contains(x) && !prev.contains(x) {
                    let k = choose|k: int| 0 <= k < p2.len() && p2[k] == x;
                    assert(k == prev.len());
                }
                if prev.contains(x) {
                    let k = choose|k: int| 0 <= k < prev.len() && prev[k] == x;
                    assert(p2[k] == x);
                }
                if x == paths.last() {
                    assert(p2[prev.len() as int] == x);
                }
            }
        }
    }
}

/// The alias paths to create for an imported item, each once.
pub fn unique_alias_paths(paths: &[String]) -> (r: Vec<String>)
    ensures
        r@.map_values(|a: String| a@) == distinct_paths(paths@.map_values(|a: String| a@)),
{
    let ghost ps = paths@.map_values(|a: String| a@);
    let mut out: Vec<String> = Vec::new();
    let mut i: usize = 0;
    proof {
        assert(ps.take(0) =~= Seq::<Seq<char>>::empty());
        assert(out@.map_values(|a: String| a@) =~= Seq::<Seq<char>>::empty());
    }
    while i < paths.len()
        invariant
            0 <= i <= paths@.len(),
            ps == paths@.map_values(|a: String| a@),
            out@.map_values(|a: String| a@) == distinct_paths(ps.take(i as int)),
        decreases paths@.len() - i,
    {
        proof {
            assert(ps.take(i + 1).drop_last() =~= ps.take(i as int));
            assert(ps.take(i + 1).last() == paths@[i as int]@);
        }
        let ghost prev = out@.map_values(|a: String| a@);
        let mut seen = false;
        let mut j: usize = 0;
        while j < out.len()
            invariant
                0 <= j <= out@.len(),
                i < paths@.len(),
                prev == out@.map_values(|a: String| a@),
                seen == exists|k: int| 0 <= k < j && prev[k] == paths@[i as int]@,
            decreases out@.len() - j,
        {
            proof {
                assert(prev[j as int] == out@[j as int]@);
            }
            if str_eq(out[j].as_str(), paths[i].as_str()) {
                seen = true;
            }
            j = j + 1;
        }
        proof {
            if prev.contains(paths@[i as int]@) {
                let k = choose|k: int| 0 <= k < prev.len() && prev[k] == paths@[i as int]@;
                assert(0 <= k < j);
            }
        }
        if !seen {
            out.push(paths[i].clone());
            proof {
                assert(out@.map_values(|a: String| a@) =~= prev.push(paths@[i as int]@));
            }
        }
        i = i + 1;
    }
    proof {
        assert(ps.take(i as int) =~= ps);
    }
    out
}

} // verus!
