# websites

The verified core of a static site management platform: the rules that decide
what a site's content becomes when it is rendered, scanned, imported and
published, each stated as a contract and proved with Verus.

## Layout

- `src/` — the library, verified with Verus.
  - `entities.rs`, `errors.rs` — content items, assets, timestamps, page types,
    publish methods, site roles, the login rule and the library's error type.
  - `site.rs`, `render.rs`, `templates.rs` — routes, slugs, feeds, tag links,
    which content is public, where each page is written, the HTML of a
    document and where templates are looked for.
  - `content_scan.rs`, `scanner.rs`, `links.rs`, `shortcodes.rs` — the scan of
    documents for legacy links, images and markup, the fixes it proposes and
    the rendering of asset shortcodes.
  - `mass_asset_import.rs`, `assets.rs` — missing images grouped by path, the
    ranking of local files that could replace them, and the names under which
    uploads are stored.
  - `wordpress.rs` — reading a WordPress export and planning its import.
  - `publish.rs` — publish settings, object keys of a mirror, the rsync
    command line and its statistics.
  - `site_export.rs`, `content_edit.rs`, `tags.rs`, `csrf.rs`, `session.rs`,
    `api.rs`, `cli.rs` — checks and decisions of exports, edits, tag sets,
    form tokens, sign-in, the management API and the command line.
  - `strings.rs` — character-sequence helpers with their specifications.
  - `deps.rs` — the trusted boundary: every call into an outside crate, and
    into std where vstd gives no specification, with the contract it is
    believed to meet.
- `tests/` — tests that run the compiled library.
- `app/` — a small command-line program around the library: it reads files,
  runs rsync and prints, and leaves every decision to the library.

Laws that relate several functions are public proof functions next to the
functions they speak of, for example `scanner::claimed_spans_disjoint`,
`csrf::issued_token_validates_once`, `tags::sync_reaches_wanted`,
`publish::mirror_deletes_exactly_stale`, `render::published_stays_published`,
`site_export::export_order_sorts`, `wordpress::alias_paths_each_once`,
`links::entity_decoding_undoes_escaping`, `site::post_and_tag_slugs_agree` and
`site_export::publish_config_round_trip`.
