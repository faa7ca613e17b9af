//! Publishing a rendered site: the publish settings and their checks, the
//! object keys of an S3-compatible mirror, the rsync command line and the
//! reading of its statistics.
use crate::deps::{guessed_content_type, guessed_content_type_of, string_from_chars};
use crate::entities::{publish_method_name, PublishMethod, PublishRunStatus};
use crate::errors::SiteError;
use crate::strings::{
    char_is_ascii_alnum, chars_of, decimal, decimal_chars, is_ascii_alnum, join,
    parse_usize, parse_usize_chars, push_all, replace, replace_chars, starts_with, str_chars,
    str_eq, trim, trim_chars, trim_end, trim_end_chars, CharPat,
};
use vstd::prelude::*;

verus! {

/// The region used when none is configured.
pub const DEFAULT_S3_REGION: &'static str = "us-east-1";

/// Where and how to mirror a rendered site into an S3-compatible store.
#[derive(Debug)]
pub struct S3CompatiblePublishConfig {
    pub endpoint_url: Option<String>,
    pub bucket: String,
    pub prefix: String,
    pub region: String,
    pub access_key_id: String,
    pub secret_access_key: String,
    pub force_path_style: bool,
}

/// Where and how to copy a rendered site with rsync over SSH.
#[derive(Debug)]
pub struct RsyncPublishConfig {
    pub ssh_host: String,
    pub ssh_user: Option<String>,
    pub ssh_port: Option<u16>,
    pub remote_path: String,
    pub identity_file: Option<String>,
}

/// What a publish did: files rendered, files published and stale objects removed.
#[derive(Debug, Clone, Copy, PartialEq, Eq, Structural)]
pub struct PublishOutcome {
    pub rendered_file_count: usize,
    pub published_file_count: usize,
    pub deleted_object_count: usize,
}

pub open spec fn blank(s: Seq<char>) -> bool {
    trim(s, CharPat::Ws).len() == 0
}

fn is_blank(s: &str) -> (b: bool)
    ensures
        b == blank(s@),
{
    trim_chars(str_chars(s).as_slice(), &CharPat::Ws).len() == 0
}

fn bad_request(msg: &str) -> (e: SiteError)
    ensures
        e == SiteError::BadRequest(e->BadRequest_0),
        e->BadRequest_0@ == msg@,
{
    SiteError::BadRequest(msg.to_string())
}

/// The message of the first check that an S3 configuration fails, if any.
pub open spec fn s3_config_problem(c: S3CompatiblePublishConfig) -> Option<Seq<char>> {
    if c.endpoint_url matches Some(u) && blank(u@) {
        Some("publish endpoint_url cannot be blank"@)
    } else if blank(c.bucket@) {
        Some("publish bucket is required"@)
    } else if blank(c.region@) {
        Some("publish region is required"@)
    } else if blank(c.access_key_id@) {
        Some("publish access_key_id is required"@)
    } else if blank(c.secret_access_key@) {
        Some("publish secret_access_key is required"@)
    } else {
        None
    }
}

/// The message of the first check that an rsync configuration fails, if any.
pub open spec fn rsync_config_problem(c: RsyncPublishConfig) -> Option<Seq<char>> {
    if blank(c.ssh_host@) {
        Some("publish ssh_host is required"@)
    } else if blank(c.remote_path@) {
        Some("publish remote_path is required"@)
    } else if c.identity_file matches Some(f) && blank(f@) {
        Some("publish identity_file cannot be blank"@)
    } else {
        None
    }
}

/// A prefix without surrounding whitespace and slashes.
pub open spec fn prefix_normalized(p: Seq<char>) -> Seq<char> {
    trim(trim(p, CharPat::Ws), CharPat::One('/'))
}

/// The SSH target: `user@host` when a user is set, else the host (both trimmed).
pub open spec fn ssh_target_of(c: RsyncPublishConfig) -> Seq<char> {
    let host = trim(c.ssh_host@, CharPat::Ws);
    match c.ssh_user {
        Some(u) if trim(u@, CharPat::Ws).len() > 0 => trim(u@, CharPat::Ws) + "@"@ + host,
        _ => host,
    }
}

/// The remote path without surrounding whitespace and trailing slashes.
pub open spec fn remote_path_of(c: RsyncPublishConfig) -> Seq<char> {
    trim_end(trim(c.remote_path@, CharPat::Ws), CharPat::One('/'))
}

impl S3CompatiblePublishConfig {
    /// Checks that the endpoint, when given, and the bucket, region and keys
    /// are not blank.
    pub fn validate(&self) -> (r: Result<(), SiteError>)
        ensures
            match s3_config_problem(*self) {
                None => r is Ok,
                Some(msg) => r matches Err(e) && e == SiteError::BadRequest(e->BadRequest_0)
                    && e->BadRequest_0@ == msg,
            },
    {
        match &self.endpoint_url {
            Some(u) => {
                if is_blank(u.as_str()) {
                    return Err(bad_request("publish endpoint_url cannot be blank"));
                }
            },
            None => {},
        }
        if is_blank(self.bucket.as_str()) {
            return Err(bad_request("publish bucket is required"));
        }
        if is_blank(self.region.as_str()) {
            return Err(bad_request("publish region is required"));
        }
        if is_blank(self.access_key_id.as_str()) {
            return Err(bad_request("publish access_key_id is required"));
        }
        if is_blank(self.secret_access_key.as_str()) {
            return Err(bad_request("publish secret_access_key is required"));
        }
        Ok(())
    }

    /// The key prefix without surrounding whitespace and slashes.
    pub fn normalized_prefix(&self) -> (r: String)
        ensures
            r@ == prefix_normalized(self.prefix@),
    {
        normalize_prefix(self.prefix.as_str())
    }
}

impl RsyncPublishConfig {
    /// Checks that the host and remote path are not blank, nor the identity
    /// file when given.
    pub fn validate(&self) -> (r: Result<(), SiteError>)
        ensures
            match rsync_config_problem(*self) {
                None => r is Ok,
                Some(msg) => r matches Err(e) && e == SiteError::BadRequest(e->BadRequest_0)
                    && e->BadRequest_0@ == msg,
            },
    {
        if is_blank(self.ssh_host.as_str()) {
            return Err(bad_request("publish ssh_host is required"));
        }
        if is_blank(self.remote_path.as_str()) {
            return Err(bad_request("publish remote_path is required"));
        }
        match &self.identity_file {
            Some(f) => {
                if is_blank(f.as_str()) {
                    return Err(bad_request("publish identity_file cannot be blank"));
                }
            },
            None => {},
        }
        Ok(())
    }

    /// The remote path without surrounding whitespace and trailing slashes.
    pub fn normalized_remote_path(&self) -> (r: String)
        ensures
            r@ == remote_path_of(*self),
    {
        let t = trim_chars(str_chars(self.remote_path.as_str()).as_slice(), &CharPat::Ws);
        string_from_chars(trim_end_chars(t.as_slice(), &CharPat::One('/')).as_slice())
    }

    /// `user@host`, or the host alone when no user is set.
    pub fn ssh_target(&self) -> (r: String)
        ensures
            r@ == ssh_target_of(*self),
    {
        let host = trim_chars(str_chars(self.ssh_host.as_str()).as_slice(), &CharPat::Ws);
        match &self.ssh_user {
            Some(u) => {
                let user = trim_chars(str_chars(u.as_str()).as_slice(), &CharPat::Ws);
                if user.len() > 0 {
                    let mut v = user;
                    v.push('@');
                    push_all(&mut v, host.as_slice());
                    proof {
                        reveal_strlit("@");
                    }
                    return string_from_chars(v.as_slice());
                }
            },
            None => {},
        }
        string_from_chars(host.as_slice())
    }
}

/// A prefix without surrounding whitespace and slashes.
pub fn normalize_prefix(prefix: &str) -> (r: String)
    ensures
        r@ == prefix_normalized(prefix@),
{
    let t = trim_chars(str_chars(prefix).as_slice(), &CharPat::Ws);
    string_from_chars(trim_chars(t.as_slice(), &CharPat::One('/')).as_slice())
}

/// The object key of a rendered file: its relative path with forward slashes,
/// under the normalized prefix when there is one.
pub open spec fn object_key_of(prefix: Seq<char>, relative: Seq<char>) -> Seq<char> {
    let rel = replace(relative, "\\"@, "/"@);
    let p = prefix_normalized(prefix);
    if p.len() == 0 {
        rel
    } else {
        p + "/"@ + rel
    }
}

/// The object key under which a rendered file is published.
pub fn object_key_for_path(prefix: &str, relative_path: &str) -> (r: String)
    ensures
        r@ == object_key_of(prefix@, relative_path@),
{
    proof {
        reveal_strlit("\\");
    }
    let rel = replace_chars(
        str_chars(relative_path).as_slice(),
        chars_of("\\").as_slice(),
        chars_of("/").as_slice(),
    );
    let p = str_chars(normalize_prefix(prefix).as_str());
    if p.len() == 0 {
        return string_from_chars(rel.as_slice());
    }
    let mut v = p;
    v.push('/');
    push_all(&mut v, rel.as_slice());
    proof {
        reveal_strlit("/");
    }
    string_from_chars(v.as_slice())
}

pub open spec fn texts(s: Seq<String>) -> Seq<Seq<char>> {
    s.map_values(|t: String| t@)
}

/// The keys that are not expected, in order.
pub open spec fn stale_keys_of(remote: Seq<Seq<char>>, expected: Seq<Seq<char>>) -> Seq<Seq<char>>
    decreases remote.len(),
{
    if remote.len() == 0 {
        Seq::empty()
    } else {
        let prev = stale_keys_of(remote.drop_last(), expected);
        if expected.contains(remote.last()) {
            prev
        } else {
            prev.push(remote.last())
        }
    }
}

/// What publishing a rendered file sends: the object key of its relative path
/// and the media type guessed from its path.
pub open spec fn upload_of(prefix: Seq<char>, relative: Seq<char>, absolute: Seq<char>) -> (Seq<char>, Seq<char>) {
    (object_key_of(prefix, relative), guessed_content_type_of(absolute))
}

/// The object key and media type of each rendered file, given as (relative
/// path, absolute path), in order.
pub fn planned_uploads(prefix: &str, files: &[(String, String)]) -> (r: Vec<(String, String)>)
    ensures
        r@.len() == files@.len(),
        forall|i: int|
            0 <= i < files@.len() ==> ((#[trigger] r@[i]).0@, r@[i].1@) == upload_of(
                prefix@,
                files@[i].0@,
                files@[i].1@,
            ),
{
    let mut out: Vec<(String, String)> = Vec::new();
    let mut i: usize = 0;
    while i < files.len()
        invariant
            0 <= i <= files@.len(),
            out@.len() == i,
            forall|j: int|
                0 <= j < i ==> ((#[trigger] out@[j]).0@, out@[j].1@) == upload_of(
                    prefix@,
                    files@[j].0@,
                    files@[j].1@,
                ),
        decreases files@.len() - i,
    {
        let key = object_key_for_path(prefix, files[i].0.as_str());
        let content_type = guessed_content_type(files[i].1.as_str());
        out.push((key, content_type));
        i = i + 1;
    }
    out
}

/// What mirroring did: every rendered file was published, and the stale
/// objects were deleted.
pub fn mirror_outcome(file_count: usize, stale_count: usize) -> (r: PublishOutcome)
    ensures
        r == (PublishOutcome {
            rendered_file_count: file_count,
            published_file_count: file_count,
            deleted_object_count: stale_count,
        }),
{
    PublishOutcome {
        rendered_file_count: file_count,
        published_file_count: file_count,
        deleted_object_count: stale_count,
    }
}

/// Publishing mirrors the rendered tree: a remote object is deleted exactly
/// when it is not under the key of a published file.
pub proof fn mirror_deletes_exactly_stale(remote: Seq<Seq<char>>, expected: Seq<Seq<char>>, k: Seq<char>)
    ensures
        stale_keys_of(remote, expected).contains(k) <==> (remote.contains(k) && !expected.contains(k)),
    decreases remote.len(),
{
    if remote.len() > 0 {
        mirror_deletes_exactly_stale(remote.drop_last(), expected, k);
        let d = remote.drop_last();
        assert(remote =~= d.push(remote.last()));
        if remote.contains(k) && !d.contains(k) {
            let i = choose|i: int| 0 <= i < remote.len() && remote[i] == k;
            if i < d.len() {
                assert(d[i] == k);
            }
        }
        if d.contains(k) {
            let i = choose|i: int| 0 <= i < d.len() && d[i] == k;
            assert(remote[i] == k);
        }
        let p = stale_keys_of(d, expected);
        if !expected.contains(remote.last()) {
            if p.push(remote.last()).contains(k) && !p.contains(k) {
                let i = choose|i: int| 0 <= i < p.len() + 1 && p.push(remote.last())[i] == k;
                assert(i == p.len());
            }
            if p.contains(k) {
                let i = choose|i: int| 0 <= i < p.len() && p[i] == k;
                assert(p.push(remote.last())[i] == k);
            }
            if k == remote.last() {
                assert(p.push(remote.last())[p.len() as int] == k);
            }
        }
    }
}

/// The remote objects that no rendered file was published to: these are deleted.
pub fn stale_object_keys(remote_keys: &[String], expected_keys: &[String]) -> (r: Vec<String>)
    ensures
        texts(r@) == stale_keys_of(texts(remote_keys@), texts(expected_keys@)),
{
    let ghost rk = texts(remote_keys@);
    let ghost ek = texts(expected_keys@);
    let mut out: Vec<String> = Vec::new();
    let mut i: usize = 0;
    proof {
        assert(texts(out@) =~= Seq::<Seq<char>>::empty());
    }
    while i < remote_keys.len()
        invariant
            0 <= i <= remote_keys@.len(),
            rk == texts(remote_keys@),
            ek == texts(expected_keys@),
            texts(out@) == stale_keys_of(rk.take(i as int), ek),
        decreases remote_keys@.len() - i,
    {
        proof {
            assert(rk.take(i + 1).drop_last() =~= rk.take(i as int));
            assert(rk.take(i + 1).last() == remote_keys@[i as int]@);
        }
        let mut expected = false;
        let mut j: usize = 0;
        while j < expected_keys.len()
            invariant
                0 <= j <= expected_keys@.len(),
                i < remote_keys@.len(),
                ek == texts(expected_keys@),
                expected == exists|k: int| 0 <= k < j && ek[k] == remote_keys@[i as int]@,
            decreases expected_keys@.len() - j,
        {
            proof {
                assert(ek[j as int] == expected_keys@[j as int]@);
            }
            if str_eq(expected_keys[j].as_str(), remote_keys[i].as_str()) {
                expected = true;
            }
            j = j + 1;
        }
        proof {
            if ek.contains(remote_keys@[i as int]@) {
                let k = choose|k: int| 0 <= k < ek.len() && ek[k] == remote_keys@[i as int]@;
                assert(0 <= k < j);
            }
        }
        if !expected {
            let ghost before = out@;
            out.push(remote_keys[i].clone());
            proof {
                assert(texts(out@) =~= texts(before).push(remote_keys@[i as int]@));
            }
        }
        i = i + 1;
    }
    proof {
        assert(rk.take(i as int) =~= rk);
    }
    out
}

pub open spec fn is_shell_safe(c: char) -> bool {
    is_ascii_alnum(c) || c == '-' || c == '_' || c == '.' || c == '/' || c == ':' || c == '@'
}

/// A value quoted for a POSIX shell: `''` when empty, unchanged when it holds
/// only safe characters, else in single quotes with each quote escaped.
pub open spec fn shell_quoted(s: Seq<char>) -> Seq<char> {
    if s.len() == 0 {
        "''"@
    } else if forall|i: int| 0 <= i < s.len() ==> is_shell_safe(#[trigger] s[i]) {
        s
    } else {
        "'"@ + replace(s, "'"@, "'\\''"@) + "'"@
    }
}

fn shell_quote_chars(value: &[char]) -> (r: Vec<char>)
    ensures
        r@ == shell_quoted(value@),
{
    if value.len() == 0 {
        return chars_of("''");
    }
    let mut safe = true;
    let mut i: usize = 0;
    while i < value.len()
        invariant
            0 <= i <= value@.len(),
            safe == forall|j: int| 0 <= j < i ==> is_shell_safe(#[trigger] value@[j]),
        decreases value@.len() - i,
    {
        let c = value[i];
        let ok = char_is_ascii_alnum(c) || c == '-' || c == '_' || c == '.' || c == '/' || c == ':'
            || c == '@';
        if !ok {
            safe = false;
        }
        i = i + 1;
    }
    if safe {
        return vstd::slice::slice_to_vec(value);
    }
    proof {
        reveal_strlit("'");
    }
    let mut v = chars_of("'");
    push_all(
        &mut v,
        replace_chars(value, chars_of("'").as_slice(), chars_of("'\\''").as_slice()).as_slice(),
    );
    push_all(&mut v, chars_of("'").as_slice());
    v
}

/// A value quoted for a POSIX shell.
pub fn shell_quote(value: &str) -> (r: String)
    ensures
        r@ == shell_quoted(value@),
{
    string_from_chars(shell_quote_chars(str_chars(value).as_slice()).as_slice())
}

/// The rsync destination `target:path/`.
pub open spec fn rsync_destination_of(c: RsyncPublishConfig) -> Seq<char> {
    ssh_target_of(c) + ":"@ + remote_path_of(c) + "/"@
}

/// The rsync destination: the SSH target, a colon and the remote path with a
/// trailing slash.
pub fn build_rsync_destination(config: &RsyncPublishConfig) -> (r: String)
    ensures
        r@ == rsync_destination_of(*config),
{
    let mut v = str_chars(config.ssh_target().as_str());
    v.push(':');
    push_all(&mut v, str_chars(config.normalized_remote_path().as_str()).as_slice());
    v.push('/');
    proof {
        reveal_strlit(":");
        reveal_strlit("/");
    }
    string_from_chars(v.as_slice())
}

/// The words of the SSH command that rsync runs: batch mode, the port when
/// set and the identity file when set and not blank.
pub open spec fn ssh_words(c: RsyncPublishConfig) -> Seq<Seq<char>> {
    let base = seq!["ssh"@, "-o"@, "BatchMode=yes"@];
    let with_port = match c.ssh_port {
        Some(p) => base + seq!["-p"@, decimal(p as nat)],
        None => base,
    };
    match c.identity_file {
        Some(f) if trim(f@, CharPat::Ws).len() > 0 => with_port + seq![
            "-i"@,
            shell_quoted(trim(f@, CharPat::Ws)),
        ],
        _ => with_port,
    }
}

fn join_words(words: &Vec<Vec<char>>) -> (r: Vec<char>)
    ensures
        r@ == join(words@.map_values(|w: Vec<char>| w@), " "@),
{
    let ghost ws = words@.map_values(|w: Vec<char>| w@);
    let mut out: Vec<char> = Vec::new();
    let mut i: usize = 0;
    proof {
        reveal_strlit(" ");
        assert(ws.take(0) =~= Seq::<Seq<char>>::empty());
    }
    while i < words.len()
        invariant
            0 <= i <= words@.len(),
            ws == words@.map_values(|w: Vec<char>| w@),
            out@ == join(ws.take(i as int), " "@),
        decreases words@.len() - i,
    {
        proof {
            reveal_strlit(" ");
            assert(ws.take(i + 1).drop_last() =~= ws.take(i as int));
            assert(ws.take(i + 1).last() == words@[i as int]@);
        }
        if i > 0 {
            out.push(' ');
        }
        push_all(&mut out, words[i].as_slice());
        proof {
            if i == 0 {
                assert(ws.take(1).len() == 1);
            }
        }
        i = i + 1;
    }
    proof {
        assert(ws.take(i as int) =~= ws);
    }
    out
}

/// The SSH command that rsync runs, its words joined by spaces.
pub fn build_ssh_command(config: &RsyncPublishConfig) -> (r: String)
    ensures
        r@ == join(ssh_words(*config), " "@),
{
    let mut words: Vec<Vec<char>> = Vec::new();
    words.push(chars_of("ssh"));
    words.push(chars_of("-o"));
    words.push(chars_of("BatchMode=yes"));
    match config.ssh_port {
        Some(p) => {
            words.push(chars_of("-p"));
            words.push(decimal_chars(p as u64));
        },
        None => {},
    }
    match &config.identity_file {
        Some(f) => {
            let t = trim_chars(str_chars(f.as_str()).as_slice(), &CharPat::Ws);
            if t.len() > 0 {
                words.push(chars_of("-i"));
                words.push(shell_quote_chars(t.as_slice()));
            }
        },
        None => {},
    }
    proof {
        assert(words@.map_values(|w: Vec<char>| w@) =~= ssh_words(*config));
    }
    string_from_chars(join_words(&words).as_slice())
}

/// The arguments of the rsync command: archive mode, deletion of extraneous
/// files and statistics, the SSH transport, the source directory with a
/// trailing slash and the destination.
pub open spec fn rsync_args_of(source_dir: Seq<char>, c: RsyncPublishConfig) -> Seq<Seq<char>> {
    seq![
        "-a"@,
        "--delete"@,
        "--stats"@,
        "-e"@,
        join(ssh_words(c), " "@),
        source_dir + "/"@,
        rsync_destination_of(c),
    ]
}

/// The arguments of the rsync command that mirrors `source_dir` to the
/// configured destination.
pub fn build_rsync_args(source_dir: &str, config: &RsyncPublishConfig) -> (r: Vec<String>)
    ensures
        texts(r@) == rsync_args_of(source_dir@, *config),
{
    let mut src = str_chars(source_dir);
    src.push('/');
    proof {
        reveal_strlit("/");
    }
    let mut r: Vec<String> = Vec::new();
    r.push("-a".to_string());
    r.push("--delete".to_string());
    r.push("--stats".to_string());
    r.push("-e".to_string());
    r.push(build_ssh_command(config));
    r.push(string_from_chars(src.as_slice()));
    r.push(build_rsync_destination(config));
    proof {
        let t = texts(r@);
        let e = rsync_args_of(source_dir@, *config);
        assert(t.len() == e.len());
        assert(t[0] == e[0]);
        assert(t[1] == e[1]);
        assert(t[2] == e[2]);
        assert(t[3] == e[3]);
        assert(t[4] == e[4]);
        assert(t[5] == e[5]);
        assert(t[6] == e[6]);
        assert(t =~= e);
    }
    r
}

/// The lines of a text: the pieces between line feeds.
pub open spec fn pieces_of(s: Seq<char>) -> Seq<Seq<char>>
    decreases s.len(),
{
    if s.len() == 0 {
        seq![Seq::empty()]
    } else {
        let ps = pieces_of(s.drop_last());
        if s.last() == '\n' {
            ps.push(Seq::empty())
        } else {
            ps.update(ps.len() - 1, ps.last().push(s.last()))
        }
    }
}

proof fn lemma_pieces_len(s: Seq<char>)
    ensures
        pieces_of(s).len() >= 1,
    decreases s.len(),
{
    if s.len() > 0 {
        lemma_pieces_len(s.drop_last());
    }
}

/// The count that a trimmed line gives after `prefix`, if it starts with it
/// and the rest parses as a count.
pub open spec fn count_after(line: Seq<char>, prefix: Seq<char>) -> Option<nat> {
    if starts_with(line, prefix) {
        parse_usize(trim(line.skip(prefix.len() as int), CharPat::Ws))
    } else {
        None
    }
}

/// The transferred and deleted counts after reading one more line: the last
/// line that reports a count sets it.
pub open spec fn stats_step(acc: (nat, nat), raw: Seq<char>) -> (nat, nat) {
    let line = trim(raw, CharPat::Ws);
    let t1 = match count_after(line, "Number of regular files transferred: "@) {
        Some(n) => n,
        None => acc.0,
    };
    let t2 = match count_after(line, "Number of files transferred: "@) {
        Some(n) => n,
        None => t1,
    };
    let d1 = match count_after(line, "Number of deleted files: "@) {
        Some(n) => n,
        None => acc.1,
    };
    let d2 = match count_after(line, "Total deleted files: "@) {
        Some(n) => n,
        None => d1,
    };
    (t2, d2)
}

pub open spec fn stats_of_lines(lines: Seq<Seq<char>>) -> (nat, nat)
    decreases lines.len(),
{
    if lines.len() == 0 {
        (0, 0)
    } else {
        stats_step(stats_of_lines(lines.drop_last()), lines.last())
    }
}

/// The transferred and deleted counts that rsync's `--stats` output reports,
/// 0 for each that it does not. (Lines are trimmed before they are read, so
/// a trailing carriage return or an empty last piece changes nothing.)
pub open spec fn rsync_stats(output: Seq<char>) -> (nat, nat) {
    stats_of_lines(pieces_of(output))
}

fn count_after_chars(line: &[char], prefix: &str) -> (r: Option<usize>)
    ensures
        r matches Some(n) ==> count_after(line@, prefix@) == Some(n as nat),
        r is None ==> count_after(line@, prefix@) is None,
{
    let p = str_chars(prefix);
    if !crate::strings::has_prefix(line, p.as_slice()) {
        return None;
    }
    let rest = crate::strings::sub_chars(line, p.len(), line.len());
    proof {
        assert(rest@ =~= line@.skip(p@.len() as int));
    }
    parse_usize_chars(trim_chars(rest.as_slice(), &CharPat::Ws).as_slice())
}

/// The transferred and deleted counts that rsync's `--stats` output reports.
pub fn parse_rsync_stats(output: &str) -> (r: (usize, usize))
    ensures
        (r.0 as nat, r.1 as nat) == rsync_stats(output@),
{
    let chars = str_chars(output);
    let mut pieces: Vec<Vec<char>> = Vec::new();
    pieces.push(Vec::new());
    let mut i: usize = 0;
    proof {
        assert(chars@.take(0) =~= Seq::<char>::empty());
        assert(pieces@.map_values(|p: Vec<char>| p@) =~= pieces_of(chars@.take(0)));
    }
    while i < chars.len()
        invariant
            0 <= i <= chars@.len(),
            pieces@.len() >= 1,
            pieces@.map_values(|p: Vec<char>| p@) == pieces_of(chars@.take(i as int)),
        decreases chars@.len() - i,
    {
        let c = chars[i];
        proof {
            assert(chars@.take(i + 1).drop_last() =~= chars@.take(i as int));
        }
        if c == '\n' {
            pieces.push(Vec::new());
        } else {
            let mut piece = pieces.pop().unwrap();
            piece.push(c);
            pieces.push(piece);
        }
        proof {
            assert(pieces@.map_values(|p: Vec<char>| p@) =~= pieces_of(chars@.take(i + 1)));
        }
        i = i + 1;
    }
    proof {
        assert(chars@.take(i as int) =~= chars@);
    }
    let ghost ls = pieces@.map_values(|p: Vec<char>| p@);
    let mut transferred: usize = 0;
    let mut deleted: usize = 0;
    let mut k: usize = 0;
    proof {
        assert(ls.take(0) =~= Seq::<Seq<char>>::empty());
    }
    while k < pieces.len()
        invariant
            0 <= k <= pieces@.len(),
            ls == pieces@.map_values(|p: Vec<char>| p@),
            (transferred as nat, deleted as nat) == stats_of_lines(ls.take(k as int)),
        decreases pieces@.len() - k,
    {
        proof {
            assert(ls.take(k + 1).drop_last() =~= ls.take(k as int));
            assert(ls.take(k + 1).last() == pieces@[k as int]@);
        }
        let line = trim_chars(pieces[k].as_slice(), &CharPat::Ws);
        match count_after_chars(line.as_slice(), "Number of regular files transferred: ") {
            Some(n) => {
                transferred = n;
            },
            None => {},
        }
        match count_after_chars(line.as_slice(), "Number of files transferred: ") {
            Some(n) => {
                transferred = n;
            },
            None => {},
        }
        match count_after_chars(line.as_slice(), "Number of deleted files: ") {
            Some(n) => {
                deleted = n;
            },
            None => {},
        }
        match count_after_chars(line.as_slice(), "Total deleted files: ") {
            Some(n) => {
                deleted = n;
            },
            None => {},
        }
        k = k + 1;
    }
    proof {
        assert(ls.take(k as int) =~= ls);
    }
    (transferred, deleted)
}

/// The result of an rsync run: the counts it reports when it succeeded, else
/// an internal error with its status and trimmed output.
pub open spec fn rsync_result(
    rendered_file_count: usize,
    stdout: Seq<char>,
    stderr: Seq<char>,
    success: bool,
    status: Seq<char>,
) -> Result<(usize, usize, usize), Seq<char>> {
    let stats = rsync_stats(stdout + "\n"@ + stderr);
    if !success {
        Err(
            "rsync publish failed: status="@ + status + " stdout="@ + trim(stdout, CharPat::Ws)
                + " stderr="@ + trim(stderr, CharPat::Ws),
        )
    } else {
        Ok((rendered_file_count, stats.0 as usize, stats.1 as usize))
    }
}

/// What an rsync publish comes to, from the rendered file count and the
/// finished command's output, success and exit status.
pub fn finish_rsync_publish(
    rendered_file_count: usize,
    stdout: &str,
    stderr: &str,
    success: bool,
    status: &str,
) -> (r: Result<PublishOutcome, SiteError>)
    ensures
        match rsync_result(rendered_file_count, stdout@, stderr@, success, status@) {
            Ok(o) => r == Ok::<PublishOutcome, SiteError>(
                PublishOutcome {
                    rendered_file_count: o.0,
                    published_file_count: o.1,
                    deleted_object_count: o.2,
                },
            ),
            Err(msg) => r matches Err(e) && e == SiteError::Internal(e->Internal_0)
                && e->Internal_0@ == msg,
        },
{
    let mut combined = str_chars(stdout);
    combined.push('\n');
    push_all(&mut combined, str_chars(stderr).as_slice());
    proof {
        reveal_strlit("\n");
        assert(combined@ =~= stdout@ + "\n"@ + stderr@);
    }
    let (published, deleted) = parse_rsync_stats(string_from_chars(combined.as_slice()).as_str());
    if !success {
        let mut msg = chars_of("rsync publish failed: status=");
        push_all(&mut msg, str_chars(status).as_slice());
        push_all(&mut msg, chars_of(" stdout=").as_slice());
        push_all(&mut msg, trim_chars(str_chars(stdout).as_slice(), &CharPat::Ws).as_slice());
        push_all(&mut msg, chars_of(" stderr=").as_slice());
        push_all(&mut msg, trim_chars(str_chars(stderr).as_slice(), &CharPat::Ws).as_slice());
        return Err(SiteError::internal(string_from_chars(msg.as_slice())));
    }
    Ok(
        PublishOutcome {
            rendered_file_count,
            published_file_count: published,
            deleted_object_count: deleted,
        },
    )
}

/// The words of a chain of error messages, joined by `": "`.
pub fn error_chain(messages: &[String]) -> (r: String)
    ensures
        r@ == join(texts(messages@), ": "@),
{
    let ghost ms = texts(messages@);
    let mut out: Vec<char> = Vec::new();
    let mut i: usize = 0;
    proof {
        assert(ms.take(0) =~= Seq::<Seq<char>>::empty());
    }
    while i < messages.len()
        invariant
            0 <= i <= messages@.len(),
            ms == texts(messages@),
            out@ == join(ms.take(i as int), ": "@),
        decreases messages@.len() - i,
    {
        proof {
            assert(ms.take(i + 1).drop_last() =~= ms.take(i as int));
            assert(ms.take(i + 1).last() == messages@[i as int]@);
        }
        if i > 0 {
            push_all(&mut out, chars_of(": ").as_slice());
        }
        push_all(&mut out, str_chars(messages[i].as_str()).as_slice());
        proof {
            if i == 0 {
                assert(ms.take(1).len() == 1);
                assert(out@ =~= ms.take(1)[0]);
            }
        }
        i = i + 1;
    }
    proof {
        assert(ms.take(i as int) =~= ms);
    }
    string_from_chars(out.as_slice())
}

/// A publish configuration as read from storage.
#[derive(Debug)]
pub enum PublishTarget {
    S3(S3CompatiblePublishConfig),
    Rsync(RsyncPublishConfig),
    Disabled,
}

/// The fields logged for a publish configuration, as (name, value).
pub open spec fn config_summary(t: PublishTarget) -> Seq<(Seq<char>, Seq<char>)> {
    match t {
        PublishTarget::S3(c) => seq![
            ("method"@, publish_method_name(PublishMethod::S3Compatible)),
            ("bucket"@, c.bucket@),
            ("prefix"@, prefix_normalized(c.prefix@)),
            (
                "endpoint_url"@,
                match c.endpoint_url {
                    Some(u) => u@,
                    None => "aws-default"@,
                },
            ),
        ],
        PublishTarget::Rsync(c) => seq![
            ("method"@, publish_method_name(PublishMethod::RsyncSsh)),
            ("ssh_host"@, ssh_target_of(c)),
            ("remote_path"@, remote_path_of(c)),
            (
                "identity_file"@,
                match c.identity_file {
                    Some(f) => f@,
                    None => Seq::empty(),
                },
            ),
        ],
        PublishTarget::Disabled => seq![("method"@, publish_method_name(PublishMethod::Disabled))],
    }
}

/// The fields of a publish configuration that are logged: never its keys.
pub fn publish_config_summary_for_log(target: &PublishTarget) -> (r: Vec<(&'static str, String)>)
    ensures
        r@.map_values(|e: (&'static str, String)| (e.0@, e.1@)) == config_summary(*target),
{
    let mut r: Vec<(&'static str, String)> = Vec::new();
    match target {
        PublishTarget::S3(c) => {
            r.push(("method", PublishMethod::S3Compatible.to_string()));
            r.push(("bucket", c.bucket.clone()));
            r.push(("prefix", c.normalized_prefix()));
            r.push(
                (
                    "endpoint_url",
                    match &c.endpoint_url {
                        Some(u) => u.clone(),
                        None => "aws-default".to_string(),
                    },
                ),
            );
        },
        PublishTarget::Rsync(c) => {
            r.push(("method", PublishMethod::RsyncSsh.to_string()));
            r.push(("ssh_host", c.ssh_target()));
            r.push(("remote_path", c.normalized_remote_path()));
            r.push(
                (
                    "identity_file",
                    match &c.identity_file {
                        Some(f) => f.clone(),
                        None => String::new(),
                    },
                ),
            );
        },
        PublishTarget::Disabled => {
            r.push(("method", PublishMethod::Disabled.to_string()));
        },
    }
    proof {
        assert(r@.map_values(|e: (&'static str, String)| (e.0@, e.1@)) =~= config_summary(
            *target,
        ));
    }
    r
}

/// The method a publish can run with: refused when no configuration was saved
/// or when publishing is disabled.
pub fn publishable_method(method: Option<PublishMethod>) -> (r: Result<PublishMethod, SiteError>)
    ensures
        match method {
            None => r matches Err(e) && e == SiteError::BadRequest(e->BadRequest_0)
                && e->BadRequest_0@ == "site publish configuration has not been saved yet"@,
            Some(PublishMethod::Disabled) => r matches Err(e) && e == SiteError::BadRequest(
                e->BadRequest_0,
            ) && e->BadRequest_0@ == "site publish configuration is disabled"@,
            Some(m) => r == Ok::<PublishMethod, SiteError>(m),
        },
{
    match method {
        None => Err(bad_request("site publish configuration has not been saved yet")),
        Some(PublishMethod::Disabled) => Err(bad_request("site publish configuration is disabled")),
        Some(m) => Ok(m),
    }
}

/// A count as stored on a publish run: clamped to `i32::MAX`.
pub fn run_count(n: usize) -> (r: i32)
    ensures
        r == if n <= i32::MAX {
            n as i32
        } else {
            i32::MAX
        },
{
    if n <= 2147483647usize {
        n as i32
    } else {
        2147483647i32
    }
}

/// Which timestamps an update of a run's status sets: the start when it
/// begins running, the finish when it succeeds or fails.
pub fn run_update_stamps(status: PublishRunStatus) -> (r: (bool, bool))
    ensures
        r == (status == PublishRunStatus::Running, status == PublishRunStatus::Succeeded || status
            == PublishRunStatus::Failed),
{
    match status {
        PublishRunStatus::Running => (true, false),
        PublishRunStatus::Succeeded => (false, true),
        PublishRunStatus::Failed => (false, true),
        PublishRunStatus::Queued => (false, false),
    }
}

/// A saved publish configuration is read as the method that the caller
/// wants only when it was saved under that method.
pub fn check_saved_method(saved: PublishMethod, wanted: PublishMethod) -> (r: Result<(), SiteError>)
    ensures
        saved == wanted ==> r is Ok,
        saved != wanted ==> (r matches Err(SiteError::BadRequest(m)) && m@
            == "unsupported publish method: "@ + publish_method_name(saved)),
{
    if saved != wanted {
        let mut m = chars_of("unsupported publish method: ");
        push_all(&mut m, str_chars(saved.as_str()).as_slice());
        return Err(SiteError::BadRequest(string_from_chars(m.as_slice())));
    }
    Ok(())
}

} // verus!
