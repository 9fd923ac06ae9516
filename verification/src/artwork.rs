//! Fetching cover art for albums that have none.
//!
//! A library ripped without artwork has nothing for a grid view to show. Covers
//! are looked up by artist and title through MusicBrainz, then downloaded from
//! the Cover Art Archive.
//!
//! Two constraints shape this module:
//!
//! * **MusicBrainz allows one request per second** from a given client, and
//!   requires a descriptive user agent. Requests are therefore serialized and
//!   paced; there is no parallelism to be had here, and hammering the service
//!   would get the client blocked.
//! * **Nothing is written into the music folders.** Covers land in the cache
//!   directory, and the file name is recorded in the database. The user's files
//!   are left exactly as they were.
//!
//! Albums that come back empty are marked as checked so a later run does not
//! repeat the same fruitless lookups.

use vstd::prelude::*;

use crate::path;
use crate::path::{FilePath, PathView};
use crate::text;
use crate::text::{append_chars, append_text, chars_of, decimal_chars, escape, int_chars, text_of};

verus! {

/// MusicBrainz requires a real contact string. Theirs is a small, donated
/// service; identifying the client is the price of using it.
pub const USER_AGENT: &'static str = "AlbumPlayer/0.1.0 ( https://github.com/albumplayer )";

/// The documented rate limit with a little headroom, in milliseconds.
pub const MIN_REQUEST_INTERVAL: u64 = 1100;

/// MusicBrainz answers 503 when it decides a client is asking too often, which
/// happens well before the documented limit if the service is busy. Backing off
/// and retrying recovers; hammering on gets the client blocked outright.
pub const MAX_ATTEMPTS: u32 = 4;

/// The delay before the first retry, in milliseconds.
pub const BACKOFF_BASE: u64 = 2000;

/// A downloaded cover is rejected above this size, which would indicate we were
/// served something other than a thumbnail.
pub const MAX_COVER_BYTES: u64 = 8_388_608;

/// How many releases are tried for one album.
pub const MAX_CANDIDATES: usize = 3;

/// How many failures a report lists.
pub const MAX_LISTED_ERRORS: usize = 50;

/// Environment override for the cover cache.
///
/// The server and the enrichment commands must agree on this directory, and in a
/// container neither the XDG variables nor `HOME` describe where the writable
/// volume is mounted. Setting this once keeps both in step.
pub const ART_DIR_ENV: &'static str = "ALBUMPLAYER_ART_DIR";

/// The characters Lucene treats as syntax.
pub open spec fn lucene_syntax() -> Seq<char> {
    seq![
        '+', '-', '&', '|', '!', '(', ')', '{', '}', '[', ']', '^', '"', '~', '*', '?', ':', '\\',
        '/',
    ]
}

/// Escape the characters Lucene treats as syntax, so a title like
/// `Album (Remastered)` searches literally instead of erroring.
pub fn lucene_escape(s: &str) -> (r: String)
    ensures
        r@ == text::escaped(s@, lucene_syntax()),
{
    let set: Vec<char> = vec![
        '+', '-', '&', '|', '!', '(', ')', '{', '}', '[', ']', '^', '"', '~', '*', '?', ':', '\\',
        '/',
    ];
    assert(set@ =~= lucene_syntax());
    text_of(&escape(&chars_of(s), &set))
}

/// A byte that stands for itself in a query string.
pub open spec fn is_unreserved(b: u8) -> bool {
    ||| 0x41 <= b <= 0x5a
    ||| 0x61 <= b <= 0x7a
    ||| 0x30 <= b <= 0x39
    ||| b == 0x2d
    ||| b == 0x5f
    ||| b == 0x2e
    ||| b == 0x7e
}

/// The character for an upper-case hexadecimal digit.
pub open spec fn upper_hex(d: int) -> char {
    if d < 10 {
        (0x30 + d) as u8 as char
    } else {
        (0x41 + d - 10) as u8 as char
    }
}

/// Bytes percent-encoded.
pub open spec fn percent_encoded(bytes: Seq<u8>) -> Seq<char>
    decreases bytes.len(),
{
    if bytes.len() == 0 {
        Seq::empty()
    } else {
        let before = percent_encoded(bytes.drop_last());
        let b = bytes.last();
        if is_unreserved(b) {
            before.push(b as char)
        } else {
            before.push('%').push(upper_hex(b as int / 16)).push(upper_hex(b as int % 16))
        }
    }
}

fn upper_hex_char(d: u8) -> (r: char)
    requires
        d < 16,
    ensures
        r == upper_hex(d as int),
{
    if d < 10 {
        (0x30 + d) as char
    } else {
        (0x41 + (d - 10)) as char
    }
}

/// Percent-encode a query string value.
pub fn urlencode(s: &str) -> (r: String)
    ensures
        r@ == percent_encoded(vstd::utf8::encode_utf8(s@)),
{
    let bytes = s.as_bytes();
    let mut out: Vec<char> = Vec::new();
    for i in 0..bytes.len()
        invariant
            out@ == percent_encoded(bytes@.take(i as int)),
    {
        assert(bytes@.take(i + 1).drop_last() =~= bytes@.take(i as int));
        let b: u8 = bytes[i];
        if (0x41 <= b && b <= 0x5a) || (0x61 <= b && b <= 0x7a) || (0x30 <= b && b <= 0x39) || b
            == 0x2d || b == 0x5f || b == 0x2e || b == 0x7e {
            out.push(b as char);
        } else {
            out.push('%');
            out.push(upper_hex_char(b / 16));
            out.push(upper_hex_char(b % 16));
        }
    }
    assert(bytes@.take(bytes@.len() as int) =~= bytes@);
    text_of(&out)
}

/// The value of an upper-case hexadecimal digit.
pub open spec fn hex_value(c: char) -> int {
    if c <= '9' {
        c as int - 0x30
    } else {
        c as int - 0x41 + 10
    }
}

/// A percent-encoded text read back, from its end.
pub open spec fn percent_decoded(s: Seq<char>) -> Seq<u8>
    decreases s.len(),
{
    let n = s.len() as int;
    if n == 0 {
        Seq::empty()
    } else if n >= 3 && s[n - 3] == '%' {
        percent_decoded(s.take(n - 3)).push(
            (16 * hex_value(s[n - 2]) + hex_value(s[n - 1])) as u8,
        )
    } else {
        percent_decoded(s.drop_last()).push(s.last() as u8)
    }
}

proof fn lemma_no_stray_percent(bytes: Seq<u8>)
    ensures
        ({
            let s = percent_encoded(bytes);
            let n = s.len() as int;
            &&& n >= 1 ==> s[n - 1] != '%'
            &&& n >= 2 ==> s[n - 2] != '%'
        }),
    decreases bytes.len(),
{
    if bytes.len() > 0 {
        lemma_no_stray_percent(bytes.drop_last());
    }
}

/// Titles survive encoding: whatever bytes a text has, its encoding reads back as
/// the same bytes.
pub proof fn encoded_values_read_back(bytes: Seq<u8>)
    ensures
        percent_decoded(percent_encoded(bytes)) == bytes,
    decreases bytes.len(),
{
    if bytes.len() > 0 {
        let front = bytes.drop_last();
        let b = bytes.last();
        encoded_values_read_back(front);
        lemma_no_stray_percent(front);
        let before = percent_encoded(front);
        let s = percent_encoded(bytes);
        let n = s.len() as int;
        if is_unreserved(b) {
            assert(s.drop_last() =~= before);
            assert(n >= 3 ==> s[n - 3] == before[n - 3]);
        } else {
            assert(s.take(n - 3) =~= before);
            let h = b as int / 16;
            let l = b as int % 16;
            assert(hex_value(upper_hex(h)) == h);
            assert(hex_value(upper_hex(l)) == l);
            assert(16 * h + l == b);
        }
        assert(front.push(b) =~= bytes);
    } else {
        assert(percent_encoded(bytes) =~= Seq::empty());
        assert(percent_decoded(Seq::empty()) =~= bytes);
    }
}

/// The search for releases of an artist and title.
pub open spec fn search_address(artist: Seq<char>, title: Seq<char>) -> Seq<char> {
    let query = "artist:"@ + text::escaped(artist, lucene_syntax()) + " AND release:"@
        + text::escaped(title, lucene_syntax());
    "https://musicbrainz.org/ws/2/release/?query="@ + percent_encoded(
        vstd::utf8::encode_utf8(query),
    ) + "&fmt=json&limit=3"@
}

/// Where to search for releases matching an artist and album title.
pub fn search_url(artist: &str, title: &str) -> (r: String)
    ensures
        r@ == search_address(artist@, title@),
{
    let mut query = chars_of("artist:");
    append_text(&mut query, &lucene_escape(artist));
    append_text(&mut query, " AND release:");
    append_text(&mut query, &lucene_escape(title));
    let mut url = chars_of("https://musicbrainz.org/ws/2/release/?query=");
    append_text(&mut url, &urlencode(&text_of(&query)));
    append_text(&mut url, "&fmt=json&limit=3");
    text_of(&url)
}

/// Where the front cover of a release is: 500 pixels, which is enough for a grid
/// and a detail panel without turning the cache into gigabytes.
pub fn cover_url(release_id: &str) -> (r: String)
    ensures
        r@ == "https://coverartarchive.org/release/"@ + release_id@ + "/front-500"@,
{
    let mut url = chars_of("https://coverartarchive.org/release/");
    append_text(&mut url, release_id);
    append_text(&mut url, "/front-500");
    text_of(&url)
}

/// Statuses that mean "ask again later" rather than "no".
pub open spec fn asks_for_patience(status: u16) -> bool {
    status == 429 || status == 500 || status == 502 || status == 503 || status == 504
}

/// True for statuses that mean "ask again later" rather than "no".
pub fn is_transient(status: u16) -> (r: bool)
    ensures
        r == asks_for_patience(status),
{
    status == 429 || status == 500 || status == 502 || status == 503 || status == 504
}

/// The delay after an attempt: the base, doubling with each attempt up to sixteen
/// times it.
pub open spec fn backoff(attempt: u32) -> int {
    BACKOFF_BASE * if attempt <= 1 {
        1int
    } else if attempt == 2 {
        2
    } else if attempt == 3 {
        4
    } else if attempt == 4 {
        8
    } else {
        16
    }
}

/// Delay before attempt number `attempt` (1-based) is repeated, doubling each
/// time, in milliseconds.
pub fn backoff_for(attempt: u32) -> (r: u64)
    ensures
        r == backoff(attempt),
{
    if attempt <= 1 {
        BACKOFF_BASE
    } else if attempt == 2 {
        BACKOFF_BASE * 2
    } else if attempt == 3 {
        BACKOFF_BASE * 4
    } else if attempt == 4 {
        BACKOFF_BASE * 8
    } else {
        BACKOFF_BASE * 16
    }
}

/// The services that are asked.
#[derive(Debug, Clone, Copy, PartialEq, Eq, Structural)]
pub enum Service {
    MusicBrainz,
    CoverArtArchive,
}

/// The name of a service in messages.
pub open spec fn service_name(service: Service) -> Seq<char> {
    match service {
        Service::MusicBrainz => "MusicBrainz"@,
        Service::CoverArtArchive => "cover art archive"@,
    }
}

/// Statuses that mean there is nothing to be had. A search that finds nothing and
/// a release without art are normal outcomes, not failures.
pub open spec fn means_nothing(service: Service, status: u16) -> bool {
    status == 404 || (service == Service::CoverArtArchive && status == 400)
}

/// How a request was answered.
pub enum Reply {
    /// With success; the body can be read.
    Body,
    /// With another status, and what the client says of it.
    Status(u16, String),
    /// Not at all, and why.
    Failed(String),
}

/// What to do after a reply.
pub enum Next {
    /// Read the body.
    Read,
    /// There is nothing to be had.
    Nothing,
    /// Ask again after so many milliseconds.
    Retry(u64),
    /// Stop, with a message.
    Fail(String),
}

/// What [`Next`] says.
pub enum NextView {
    Read,
    Nothing,
    Retry(int),
    Fail(Seq<char>),
}

impl View for Next {
    type V = NextView;

    open spec fn view(&self) -> NextView {
        match self {
            Next::Read => NextView::Read,
            Next::Nothing => NextView::Nothing,
            Next::Retry(ms) => NextView::Retry(*ms as int),
            Next::Fail(m) => NextView::Fail(m@),
        }
    }
}

/// What to do after the reply to an attempt. Services throw 500s and 503s under
/// load, and a transient fault should not permanently mark an album as coverless.
pub open spec fn next_step(service: Service, attempt: u32, reply: Reply) -> NextView {
    match reply {
        Reply::Body => NextView::Read,
        Reply::Status(status, said) => if means_nothing(service, status) {
            NextView::Nothing
        } else if !asks_for_patience(status) {
            NextView::Fail(service_name(service) + ": "@ + said@)
        } else if attempt < MAX_ATTEMPTS {
            NextView::Retry(backoff(attempt))
        } else {
            NextView::Fail(
                service_name(service) + " kept answering "@ + text::decimal_text(status as nat)
                    + " after "@ + text::decimal_text(MAX_ATTEMPTS as nat) + " attempts"@,
            )
        },
        Reply::Failed(why) => NextView::Fail(service_name(service) + ": "@ + why@),
    }
}

fn name_of(service: Service) -> (r: Vec<char>)
    ensures
        r@ == service_name(service),
{
    match service {
        Service::MusicBrainz => chars_of("MusicBrainz"),
        Service::CoverArtArchive => chars_of("cover art archive"),
    }
}

/// What to do after the reply to attempt number `attempt` (1-based).
pub fn after_reply(service: Service, attempt: u32, reply: Reply) -> (r: Next)
    ensures
        r@ == next_step(service, attempt, reply),
{
    let mut message = name_of(service);
    match reply {
        Reply::Body => Next::Read,
        Reply::Status(status, said) => {
            let nothing = status == 404 || (match service {
                Service::CoverArtArchive => status == 400,
                Service::MusicBrainz => false,
            });
            if nothing {
                Next::Nothing
            } else if !is_transient(status) {
                append_text(&mut message, ": ");
                append_text(&mut message, &said);
                Next::Fail(text_of(&message))
            } else if attempt < MAX_ATTEMPTS {
                Next::Retry(backoff_for(attempt))
            } else {
                append_text(&mut message, " kept answering ");
                append_chars(&mut message, &decimal_chars(status as u64));
                append_text(&mut message, " after ");
                append_chars(&mut message, &decimal_chars(MAX_ATTEMPTS as u64));
                append_text(&mut message, " attempts");
                Next::Fail(text_of(&message))
            }
        },
        Reply::Failed(why) => {
            append_text(&mut message, ": ");
            append_text(&mut message, &why);
            Next::Fail(text_of(&message))
        },
    }
}

/// Whatever the replies, a request is repeated fewer than [`MAX_ATTEMPTS`] times,
/// and only for statuses that ask for patience, each wait longer than the last.
pub proof fn retries_are_few_and_patient(service: Service, attempt: u32, reply: Reply)
    ensures
        next_step(service, attempt, reply) matches NextView::Retry(ms) ==> {
            &&& attempt < MAX_ATTEMPTS
            &&& reply matches Reply::Status(s, _) && asks_for_patience(s)
            &&& ms >= BACKOFF_BASE
            &&& attempt >= 1 ==> backoff((attempt + 1) as u32) == 2 * ms
        },
{
}

/// Paces outgoing requests so the rate limit is never exceeded.
pub struct RateLimiter {
    /// When the last request went out, in milliseconds.
    pub last: Option<u64>,
}

/// How long to wait before the next request may go out.
pub open spec fn pause_needed(last: Option<u64>, now: u64) -> int {
    match last {
        Some(t) => {
            let elapsed = if now >= t {
                now - t
            } else {
                0
            };
            if elapsed < MIN_REQUEST_INTERVAL {
                MIN_REQUEST_INTERVAL - elapsed
            } else {
                0
            }
        },
        None => 0,
    }
}

impl RateLimiter {
    pub fn new() -> (r: RateLimiter)
        ensures
            r.last is None,
    {
        RateLimiter { last: None }
    }

    /// How long to wait before the next request, in milliseconds.
    pub fn wait(&self, now: u64) -> (r: u64)
        ensures
            r == pause_needed(self.last, now),
    {
        match self.last {
            Some(t) => {
                let elapsed: u64 = if now >= t {
                    now - t
                } else {
                    0
                };
                if elapsed < MIN_REQUEST_INTERVAL {
                    MIN_REQUEST_INTERVAL - elapsed
                } else {
                    0
                }
            },
            None => 0,
        }
    }

    /// Note that a request goes out.
    pub fn sent(&mut self, now: u64)
        ensures
            final(self).last == Some(now),
    {
        self.last = Some(now);
    }
}

/// A request that goes out no earlier than the limiter says goes out at least the
/// interval after the one before.
pub proof fn requests_are_spaced_out(last: u64, now: u64, sent: u64)
    requires
        last <= now,
        sent >= now + pause_needed(Some(last), now),
    ensures
        sent - last >= MIN_REQUEST_INTERVAL,
{
}

/// The texts of a list of optional texts, where there is a list.
pub open spec fn listed_texts(r: Option<Vec<Option<String>>>) -> Option<Seq<Option<Seq<char>>>> {
    match r {
        Some(v) => Some(text::opt_texts(v@)),
        None => None,
    }
}

/// What `serde_json::from_str` finds in a document: of each entry of the list that
/// stands under one key, the string under another key, where there is one; nothing
/// when there is no such list; and what is wrong with a text that is no document.
pub uninterp spec fn strings_in(body: Seq<char>, list: Seq<char>, key: Seq<char>) -> Result<
    Option<Seq<Option<Seq<char>>>>,
    Seq<char>,
>;

/// Calls `serde_json::from_str` and picks a list of the document, and a string of
/// each of its entries, through the indexing of `serde_json::Value`. Which texts are
/// documents is not spelled out.
#[verifier::external_body]
fn listed_strings(body: &str, list: &str, key: &str) -> (r: Result<
    Option<Vec<Option<String>>>,
    String,
>)
    ensures
        match r {
            Ok(found) => strings_in(body@, list@, key@) == Ok::<
                Option<Seq<Option<Seq<char>>>>,
                Seq<char>,
            >(listed_texts(found)),
            Err(e) => strings_in(body@, list@, key@) == Err::<
                Option<Seq<Option<Seq<char>>>>,
                Seq<char>,
            >(e@),
        },
{
    serde_json::from_str::<serde_json::Value>(body)
        .map(|v| {
            v[list].as_array().map(|entries| {
                entries.iter().map(|e| e[key].as_str().map(str::to_string)).collect()
            })
        })
        .map_err(|e| e.to_string())
}

/// The texts that are there, in order.
pub open spec fn present(ids: Seq<Option<Seq<char>>>) -> Seq<Seq<char>>
    decreases ids.len(),
{
    if ids.len() == 0 {
        Seq::empty()
    } else {
        match ids.last() {
            Some(id) => present(ids.drop_last()).push(id),
            None => present(ids.drop_last()),
        }
    }
}

/// The releases that an answer names: the identifiers that are there, in order,
/// and none when there is no list.
pub fn named_releases(ids: Option<Vec<Option<String>>>) -> (r: Vec<String>)
    ensures
        path::texts(r@) == match listed_texts(ids) {
            Some(list) => present(list),
            None => Seq::empty(),
        },
{
    let mut out: Vec<String> = Vec::new();
    assert(path::texts(out@) =~= Seq::empty());
    let list = match ids {
        Some(list) => list,
        None => {
            return out;
        },
    };
    let ghost all = text::opt_texts(list@);
    assert(all.take(0) =~= Seq::empty());
    for i in 0..list.len()
        invariant
            all == text::opt_texts(list@),
            path::texts(out@) == present(all.take(i as int)),
    {
        assert(all.take(i + 1).drop_last() =~= all.take(i as int));
        if let Some(id) = &list[i] {
            let ghost before = out@;
            out.push(id.clone());
            assert(path::texts(out@) =~= path::texts(before).push(id@));
        }
    }
    assert(all.take(all.len() as int) =~= all);
    out
}

/// The releases that the body of an answer to a search names.
pub fn parse_releases(body: &str) -> (r: Result<Vec<String>, String>)
    ensures
        match strings_in(body@, "releases"@, "id"@) {
            Ok(Some(list)) => r matches Ok(ids) && path::texts(ids@) == present(list),
            Ok(None) => r matches Ok(ids) && ids@.len() == 0,
            Err(e) => r matches Err(m) && m@ == "MusicBrainz returned invalid JSON: "@ + e,
        },
{
    match listed_strings(body, "releases", "id") {
        Ok(list) => {
            let ids = named_releases(list);
            assert(path::texts(ids@).len() == ids@.len());
            Ok(ids)
        },
        Err(e) => {
            let mut m = chars_of("MusicBrainz returned invalid JSON: ");
            append_text(&mut m, &e);
            Err(text_of(&m))
        },
    }
}

/// The release that an album's tags name, unless they name it by a blank.
pub open spec fn usable_release(mb_album_id: Option<String>) -> Option<String> {
    match mb_album_id {
        Some(id) => if text::is_blank(id@) {
            None
        } else {
            Some(id)
        },
        None => None,
    }
}

/// The releases to try for an album, from its own tags: a release ID there saves a
/// search entirely.
pub fn tagged_release(mb_album_id: &Option<String>) -> (r: Option<String>)
    ensures
        r == usable_release(*mb_album_id),
{
    match mb_album_id {
        Some(id) => if text::blank(id) {
            None
        } else {
            Some(id.clone())
        },
        None => None,
    }
}

/// The first few of the releases that were found.
pub open spec fn first_candidates(ids: Seq<String>) -> Seq<String> {
    if ids.len() <= MAX_CANDIDATES {
        ids
    } else {
        ids.take(MAX_CANDIDATES as int)
    }
}

/// The releases that are tried, in order, until one has a cover.
pub fn to_try(ids: &Vec<String>) -> (r: Vec<String>)
    ensures
        r@ == first_candidates(ids@),
{
    let n: usize = if ids.len() <= MAX_CANDIDATES {
        ids.len()
    } else {
        MAX_CANDIDATES
    };
    let r = path::copy_texts(ids, 0, n);
    assert(ids@.subrange(0, n as int) =~= ids@.take(n as int));
    assert(ids@.take(ids@.len() as int) =~= ids@);
    r
}

/// The name a fetched cover is stored under. Only the name, never the directory:
/// the cache sits somewhere different on a host than in a container, and an
/// absolute path would break every cover the moment the server moved.
pub fn cover_name(album_id: i64) -> (r: String)
    ensures
        r@ == text::int_text(album_id as int) + ".jpg"@,
{
    let mut out = int_chars(album_id);
    append_text(&mut out, ".jpg");
    text_of(&out)
}

/// The first bytes of an image in a format that is stored.
pub open spec fn is_image(b: Seq<u8>) -> bool {
    ||| b.len() >= 3 && b[0] == 0xff && b[1] == 0xd8 && b[2] == 0xff
    ||| b.len() >= 4 && b[0] == 0x89 && b[1] == 0x50 && b[2] == 0x4e && b[3] == 0x47
    ||| b.len() > 12 && b[0] == 0x52 && b[1] == 0x49 && b[2] == 0x46 && b[3] == 0x46 && b[8] == 0x57
        && b[9] == 0x45 && b[10] == 0x42 && b[11] == 0x50
}

/// Check the magic bytes of a downloaded file (JPEG, PNG or WebP), to guard
/// against an error page being cached as though it were an image.
pub fn looks_like_image(bytes: &[u8]) -> (r: bool)
    ensures
        r == is_image(bytes@),
{
    let n: usize = bytes.len();
    (n >= 3 && bytes[0] == 0xff && bytes[1] == 0xd8 && bytes[2] == 0xff) || (n >= 4 && bytes[0]
        == 0x89 && bytes[1] == 0x50 && bytes[2] == 0x4e && bytes[3] == 0x47) || (n > 12 && bytes[0]
        == 0x52 && bytes[1] == 0x49 && bytes[2] == 0x46 && bytes[3] == 0x46 && bytes[8] == 0x57
        && bytes[9] == 0x45 && bytes[10] == 0x42 && bytes[11] == 0x50)
}

/// Where covers are cached, as far as the user's environment tells.
pub open spec fn cache_home(
    art_dir: Option<Seq<char>>,
    cache_home: Option<Seq<char>>,
    home: Option<Seq<char>>,
) -> Option<PathView> {
    match (art_dir, cache_home, home) {
        (Some(dir), _, _) if dir.len() > 0 => Some(path::path_of(dir)),
        (_, Some(base), _) => Some(path::path_of(base).join(path::path_of("albumplayer/art"@))),
        (_, None, Some(h)) => Some(
            path::path_of(h).join(path::path_of(".cache"@)).join(path::path_of("albumplayer/art"@)),
        ),
        _ => None,
    }
}

/// Default cover cache location, from the variables that name it, if they are
/// set: the override, the user's cache directory, the user's home.
pub fn default_cache_dir(art_dir: Option<String>, cache_home: Option<String>, home: Option<String>) -> (r:
    Result<FilePath, String>)
    ensures
        match self::cache_home(
            text::opt_text(art_dir),
            text::opt_text(cache_home),
            text::opt_text(home),
        ) {
            Some(dir) => r matches Ok(p) && p@ == dir,
            None => r matches Err(m) && m@ == "neither XDG_CACHE_HOME nor HOME is set"@,
        },
{
    if let Some(dir) = art_dir {
        if chars_of(&dir).len() > 0 {
            return Ok(FilePath::parse(&dir));
        }
    }
    let base = match cache_home {
        Some(base) => FilePath::parse(&base),
        None => match home {
            Some(h) => FilePath::parse(&h).join(&FilePath::parse(".cache")),
            None => {
                return Err("neither XDG_CACHE_HOME nor HOME is set".to_owned());
            },
        },
    };
    Ok(base.join(&FilePath::parse("albumplayer/art")))
}

#[derive(Debug, Clone)]
pub struct Options {
    /// Retry albums previously checked and not found.
    pub force: bool,
    /// Stop after this many albums.
    pub limit: Option<usize>,
}

/// What every listing of albums without covers selects.
pub const PENDING_SELECT: &'static str = "SELECT al.id, ar.name, al.title, al.mb_album_id
 FROM album al JOIN artist ar ON ar.id = al.album_artist_id
 WHERE al.present = 1
   AND al.art_path IS NULL
   AND al.art_cache_path IS NULL";

/// The condition that leaves out albums that were checked before.
pub const UNCHECKED_ONLY: &'static str = " AND al.art_checked_at IS NULL";

pub const PENDING_ORDER: &'static str = " ORDER BY ar.sort_name, al.sort_title";

/// The query for the albums to look covers up for.
pub open spec fn pending_query(force: bool, limit: Option<usize>) -> Seq<char> {
    PENDING_SELECT@ + (if force {
        Seq::empty()
    } else {
        UNCHECKED_ONLY@
    }) + PENDING_ORDER@ + match limit {
        Some(n) => " LIMIT "@ + text::decimal_text(n as nat),
        None => Seq::empty(),
    }
}

/// The query for the albums to look up.
pub fn pending_sql(options: &Options) -> (r: String)
    ensures
        r@ == pending_query(options.force, options.limit),
{
    let mut sql = chars_of(PENDING_SELECT);
    if !options.force {
        append_text(&mut sql, UNCHECKED_ONLY);
    } else {
        assert(sql@ + Seq::<char>::empty() =~= sql@);
    }
    append_text(&mut sql, PENDING_ORDER);
    let ghost before = sql@;
    match options.limit {
        Some(n) => {
            append_text(&mut sql, " LIMIT ");
            append_chars(&mut sql, &decimal_chars(n as u64));
            assert(sql@ =~= before + (" LIMIT "@ + text::decimal_text(n as nat)));
        },
        None => {
            assert(before + Seq::<char>::empty() =~= before);
        },
    }
    text_of(&sql)
}

/// How an album is named in messages.
pub fn label(artist: &str, title: &str) -> (r: String)
    ensures
        r@ == artist@ + " — "@ + title@,
{
    let mut out = chars_of(artist);
    append_text(&mut out, " — ");
    append_text(&mut out, title);
    text_of(&out)
}

/// How the lookup of one album went.
pub enum Outcome {
    Fetched,
    NotFound,
    Failed(String),
}

#[derive(Debug)]
pub struct Report {
    pub considered: usize,
    pub fetched: usize,
    pub not_found: usize,
    pub failed: usize,
    pub errors: Vec<(String, String)>,
    pub duration_ms: u128,
}

/// A report after one more album came out so.
pub open spec fn noted(before: Report, after: Report, label: String, outcome: Outcome) -> bool {
    &&& after.considered == before.considered
    &&& after.duration_ms == before.duration_ms
    &&& after.fetched == before.fetched + if outcome is Fetched {
        1int
    } else {
        0
    }
    &&& after.not_found == before.not_found + if outcome is NotFound {
        1int
    } else {
        0
    }
    &&& after.failed == before.failed + if outcome is Failed {
        1int
    } else {
        0
    }
    &&& after.errors@ == match outcome {
        Outcome::Failed(why) if before.errors@.len() < MAX_LISTED_ERRORS => before.errors@.push(
            (label, why),
        ),
        _ => before.errors@,
    }
}

impl Report {
    /// A report on so many albums, none of which was looked up yet.
    pub fn new(considered: usize) -> (r: Report)
        ensures
            r.considered == considered,
            r.fetched == 0,
            r.not_found == 0,
            r.failed == 0,
            r.errors@.len() == 0,
            r.duration_ms == 0,
    {
        Report {
            considered,
            fetched: 0,
            not_found: 0,
            failed: 0,
            errors: Vec::new(),
            duration_ms: 0,
        }
    }

    /// No more albums were looked up than were considered.
    pub open spec fn in_range(self) -> bool {
        self.fetched + self.not_found + self.failed <= self.considered
    }

    /// Note how one more album went. The first failures are listed.
    pub fn note(&mut self, label: String, outcome: Outcome)
        requires
            old(self).fetched + old(self).not_found + old(self).failed < old(self).considered,
        ensures
            noted(*old(self), *final(self), label, outcome),
            final(self).in_range(),
    {
        match outcome {
            Outcome::Fetched => {
                self.fetched = self.fetched + 1;
            },
            Outcome::NotFound => {
                self.not_found = self.not_found + 1;
            },
            Outcome::Failed(why) => {
                self.failed = self.failed + 1;
                if self.errors.len() < MAX_LISTED_ERRORS {
                    self.errors.push((label, why));
                }
            },
        }
    }
}

/// A title searches literally: read back, the escaped query stands for exactly its
/// characters.
pub proof fn searches_are_literal(s: Seq<char>)
    ensures
        text::unescaped(text::escaped(s, lucene_syntax())) == s,
{
    assert(lucene_syntax()[17] == '\\');
    text::escaping_is_undone_by_reading(s, lucene_syntax());
}

} // verus!
