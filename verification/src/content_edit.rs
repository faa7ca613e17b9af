//! How content changes: the publish date of new content, and what an edit
//! does to an item.
use crate::entities::{ContentItem, PageType, Timestamp};
use vstd::prelude::*;

verus! {

/// The publish date of new content: published content gets the given date or
/// `now`; a draft keeps the given date, if any.
pub open spec fn initial_published(draft: bool, published_at: Option<Timestamp>, now: Timestamp) -> Option<
    Timestamp,
> {
    if !draft {
        match published_at {
            Some(t) => Some(t),
            None => Some(now),
        }
    } else {
        published_at
    }
}

/// The publish date that new content is stored with.
pub fn initial_published_at(draft: bool, published_at: Option<Timestamp>, now: Timestamp) -> (r: Option<
    Timestamp,
>)
    ensures
        r == initial_published(draft, published_at, now),
{
    if !draft {
        match published_at {
            Some(t) => Some(t),
            None => Some(now),
        }
    } else {
        published_at
    }
}

/// An edit of a content item: each field that is set replaces the item's.
#[derive(Debug)]
pub struct UpdateContent {
    pub page_type: Option<PageType>,
    pub title: Option<String>,
    pub slug: Option<String>,
    pub page_content: Option<String>,
    pub draft: Option<bool>,
    pub published_at: Option<Timestamp>,
}

/// An item after an edit at `now`: set fields replace the item's; the publish
/// date is the edit's, else `now` when the edit publishes a draft, else the
/// item's; and the item was last changed at `now`.
pub open spec fn updated_item(c: ContentItem, u: UpdateContent, now: Timestamp) -> ContentItem {
    let publish_now = u.draft == Some(false) && c.draft;
    ContentItem {
        page_type: match u.page_type {
            Some(p) => p,
            None => c.page_type,
        },
        title: match u.title {
            Some(t) => t,
            None => c.title,
        },
        slug: match u.slug {
            Some(s) => s,
            None => c.slug,
        },
        page_content: match u.page_content {
            Some(b) => b,
            None => c.page_content,
        },
        draft: match u.draft {
            Some(d) => d,
            None => c.draft,
        },
        published_at: match u.published_at {
            Some(t) => Some(t),
            None => if publish_now {
                Some(now)
            } else {
                c.published_at
            },
        },
        last_updated: Some(now),
        ..c
    }
}

/// Applies an edit made at `now` to a content item.
pub fn apply_content_update(existing: ContentItem, update: UpdateContent, now: Timestamp) -> (r: ContentItem)
    ensures
        r == updated_item(existing, update, now),
{
    let ghost c0 = existing;
    let ghost u0 = update;
    let publish_now = match update.draft {
        Some(d) => !d && existing.draft,
        None => false,
    };
    let mut c = existing;
    let published_at = match update.published_at {
        Some(t) => Some(t),
        None => if publish_now {
            Some(now.clone())
        } else {
            c.published_at
        },
    };
    match update.page_type {
        Some(p) => {
            c.page_type = p;
        },
        None => {},
    }
    match update.title {
        Some(t) => {
            c.title = t;
        },
        None => {},
    }
    match update.slug {
        Some(s) => {
            c.slug = s;
        },
        None => {},
    }
    match update.page_content {
        Some(b) => {
            c.page_content = b;
        },
        None => {},
    }
    match update.draft {
        Some(d) => {
            c.draft = d;
        },
        None => {},
    }
    c.published_at = published_at;
    c.last_updated = Some(now);
    proof {
        assert(c == updated_item(c0, u0, now));
    }
    c
}

/// An edit that sets nothing only records when the item was last changed.
pub proof fn empty_update_only_touches(c: ContentItem, now: Timestamp)
    ensures
        updated_item(
            c,
            UpdateContent {
                page_type: None,
                title: None,
                slug: None,
                page_content: None,
                draft: None,
                published_at: None,
            },
            now,
        ) == (ContentItem { last_updated: Some(now), ..c }),
{
}

/// Publishing a draft without a date publishes it at the time of the edit;
/// editing published content without a date keeps its publish date.
pub proof fn publishing_sets_date(c: ContentItem, u: UpdateContent, now: Timestamp)
    requires
        u.published_at is None,
    ensures
        (c.draft && u.draft == Some(false)) ==> updated_item(c, u, now).published_at == Some(now),
        !c.draft ==> updated_item(c, u, now).published_at == c.published_at,
{
}

/// An imported item with the dates its source gave: unchanged when the source
/// gave neither; else its creation date replaced when one was given, and its
/// last-update date set to the one given, or to none.
pub open spec fn with_imported_timestamps(
    c: ContentItem,
    created_at: Option<Timestamp>,
    last_updated: Option<Timestamp>,
) -> ContentItem {
    if created_at is None && last_updated is None {
        c
    } else {
        ContentItem {
            created_at: match created_at {
                Some(t) => t,
                None => c.created_at,
            },
            last_updated,
            ..c
        }
    }
}

/// Gives an imported content item the dates of its source.
pub fn apply_imported_content_timestamps(
    content: ContentItem,
    created_at: Option<Timestamp>,
    last_updated: Option<Timestamp>,
) -> (r: ContentItem)
    ensures
        r == with_imported_timestamps(content, created_at, last_updated),
{
    if created_at.is_none() && last_updated.is_none() {
        return content;
    }
    let mut c = content;
    match created_at {
        Some(t) => {
            c.created_at = t;
        },
        None => {},
    }
    c.last_updated = last_updated;
    c
}

/// The snapshot that an edit appends to a content item's revisions.
#[derive(Debug)]
pub struct RevisionSnapshot {
    pub content_id: String,
    pub site_id: String,
    pub revision_number: i32,
    pub title: String,
    pub slug: String,
    pub page_content: String,
    pub draft: bool,
    pub page_type: PageType,
    pub editor_sub: String,
    pub created_at: Timestamp,
}

/// The revision that records an item as it stands after an edit by
/// `editor_sub` at `now`: the item's id, site, title, slug, body, draft flag
/// and page type, with the revision's number.
pub fn revision_snapshot(content: &ContentItem, revision_number: i32, editor_sub: &str, now: Timestamp) -> (r:
    RevisionSnapshot)
    ensures
        r.content_id@ == content.id@,
        r.site_id@ == content.site_id@,
        r.revision_number == revision_number,
        r.title@ == content.title@,
        r.slug@ == content.slug@,
        r.page_content@ == content.page_content@,
        r.draft == content.draft,
        r.page_type == content.page_type,
        r.editor_sub@ == editor_sub@,
        r.created_at == now,
{
    RevisionSnapshot {
        content_id: content.id.clone(),
        site_id: content.site_id.clone(),
        revision_number,
        title: content.title.clone(),
        slug: content.slug.clone(),
        page_content: content.page_content.clone(),
        draft: content.draft,
        page_type: content.page_type,
        editor_sub: editor_sub.to_string(),
        created_at: now,
    }
}

/// The number of the next revision of content that has `count` revisions:
/// one more, saturating; `None` when the count does not fit an `i32`.
pub fn next_revision_number(count: usize) -> (r: Option<i32>)
    ensures
        r == (if count <= i32::MAX {
            Some(if count < i32::MAX {
                (count + 1) as i32
            } else {
                i32::MAX
            })
        } else {
            None::<i32>
        }),
{
    if count <= 2147483647usize {
        let c = count as i32;
        if c < 2147483647i32 {
            Some(c + 1)
        } else {
            Some(c)
        }
    } else {
        None
    }
}

} // verus!
