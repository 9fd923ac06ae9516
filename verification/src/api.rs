//! What the HTTP routes decide.
//!
//! Clients never see or supply filesystem paths. Audio and covers are addressed
//! by database ID, and the server resolves the ID to a path itself, then checks
//! that the result really does sit under a directory it is allowed to serve.
//! That is the whole defence against path traversal, and it holds even if the
//! database is somehow wrong.

use vstd::prelude::*;

use crate::auth;
use crate::auth::{Auth, ClientAddr, SessionView};
use crate::path::FilePath;
use crate::path::PathView;
use crate::query;
use crate::query::{AlbumFilter, AlbumSort};
use crate::server::ServerError;
use crate::text;
use crate::text::{append_text, chars_of, same_chars, slice_chars, split_of, strip_front, text_of, trim_of};

verus! {

/// The position of the first `=` of a text, or its length.
pub open spec fn equals_at(s: Seq<char>, i: int) -> int
    decreases s.len() - i,
{
    if i >= s.len() || s[i] == '=' {
        i
    } else {
        equals_at(s, i + 1)
    }
}

/// The value of a `key=value` pair whose key is `token`.
pub open spec fn token_pair(pair: Seq<char>) -> Option<Seq<char>> {
    let i = equals_at(pair, 0);
    if i < pair.len() && pair.take(i) == "token"@ {
        Some(pair.skip(i + 1))
    } else {
        None
    }
}

/// The value of the first `token` parameter at or after `i`.
pub open spec fn token_param(pairs: Seq<Seq<char>>, i: int) -> Option<Seq<char>>
    decreases pairs.len() - i,
{
    if i >= pairs.len() {
        None
    } else {
        match token_pair(pairs[i]) {
            Some(v) => Some(v),
            None => token_param(pairs, i + 1),
        }
    }
}

/// The token a request carries: in its `Authorization` header, or failing that in
/// its query string.
pub open spec fn request_token(header: Option<Seq<char>>, query: Option<Seq<char>>) -> Option<
    Seq<char>,
> {
    let bearer = match header {
        Some(h) => text::stripped(h, "Bearer "@),
        None => None,
    };
    match bearer {
        Some(t) => Some(t),
        None => match query {
            Some(q) => token_param(text::split(q, '&'), 0),
            None => None,
        },
    }
}

/// The text in an optional borrowed string.
pub open spec fn opt_str(o: Option<&str>) -> Option<Seq<char>> {
    match o {
        Some(s) => Some(s@),
        None => None,
    }
}

fn pair_token(pair: &Vec<char>) -> (r: Option<Vec<char>>)
    ensures
        match r {
            Some(v) => token_pair(pair@) == Some(v@),
            None => token_pair(pair@) is None,
        },
{
    let n: usize = pair.len();
    let mut i: usize = 0;
    while i < n && pair[i] != '='
        invariant
            n == pair@.len(),
            i <= n,
            equals_at(pair@, 0) == equals_at(pair@, i as int),
        decreases n - i,
    {
        i += 1;
    }
    if i == n {
        return None;
    }
    let key = slice_chars(pair, 0, i);
    assert(key@ =~= pair@.take(i as int));
    if same_chars(&key, &chars_of("token")) {
        let value = slice_chars(pair, i + 1, n);
        assert(value@ =~= pair@.skip(i + 1));
        Some(value)
    } else {
        None
    }
}

/// Pull the token from the `Authorization` header, or failing that the query
/// string.
///
/// The query fallback exists because `<audio src>` and `<img src>` cannot send
/// headers, and those tags point at exactly the streaming and cover routes.
pub fn token_from(header: Option<&str>, query: Option<&str>) -> (r: Option<String>)
    ensures
        text::opt_text(r) == request_token(opt_str(header), opt_str(query)),
{
    if let Some(h) = header {
        if let Some(rest) = strip_front(&chars_of(h), "Bearer ") {
            return Some(text_of(&rest));
        }
    }
    match query {
        Some(q) => query_token(q),
        None => None,
    }
}

fn query_token(q: &str) -> (r: Option<String>)
    ensures
        text::opt_text(r) == token_param(text::split(q@, '&'), 0),
{
    let pairs = split_of(&chars_of(q), '&');
    let ghost all = text::split(q@, '&');
    let mut i: usize = 0;
    while i < pairs.len()
        invariant
            i <= pairs@.len(),
            all == text::split(q@, '&'),
            all == text::each_chars(pairs@),
            token_param(all, 0) == token_param(all, i as int),
        decreases pairs@.len() - i,
    {
        assert(all[i as int] == pairs@[i as int]@);
        if let Some(v) = pair_token(&pairs[i]) {
            return Some(text_of(&v));
        }
        i += 1;
    }
    None
}

/// A request that carries the token of a session that is still open.
pub open spec fn let_in(
    sessions: Seq<SessionView>,
    header: Option<Seq<char>>,
    query: Option<Seq<char>>,
    now: u128,
) -> bool {
    match request_token(header, query) {
        Some(token) => auth::is_live(sessions, token, now),
        None => false,
    }
}

/// Reject anything without a valid session token.
pub fn require_token(auth: &Auth, header: Option<&str>, query: Option<&str>, now: u128) -> (r: Result<
    (),
    ServerError,
>)
    ensures
        if let_in(auth@.sessions, opt_str(header), opt_str(query), now) {
            r is Ok
        } else {
            r == Err::<(), ServerError>(ServerError::Unauthorized)
        },
{
    match token_from(header, query) {
        Some(token) => if auth.verify(&token, now) {
            Ok(())
        } else {
            Err(ServerError::Unauthorized)
        },
        None => Err(ServerError::Unauthorized),
    }
}

/// The last entry of a list that commas set apart, trimmed.
pub open spec fn last_entry(header: Seq<char>) -> Seq<char> {
    text::trimmed(text::split(header, ',').last())
}

/// The last entry of a forwarding header, trimmed. With one trusted hop it is
/// what that hop observed; earlier entries are whatever the caller chose to claim.
pub fn last_forwarded(header: &str) -> (r: String)
    ensures
        r@ == last_entry(header@),
{
    let entries = split_of(&chars_of(header), ',');
    assert(text::each_chars(entries@).last() == entries@.last()@);
    text_of(&trim_of(&entries[entries.len() - 1]))
}

/// Which address a login attempt is counted against, given the addresses that the
/// `CF-Connecting-IP` header and the last entry of `X-Forwarded-For` hold, if any.
///
/// The socket address by default. Behind a tunnel every request arrives from the
/// same upstream, so the real client has to come from a header instead, but only
/// when the operator has said a proxy is genuinely in front, since otherwise
/// anyone could forge the header and get a fresh allowance per guess.
pub fn client_address(
    trust_proxy: bool,
    connecting: Option<ClientAddr>,
    forwarded: Option<ClientAddr>,
    peer: ClientAddr,
) -> (r: ClientAddr)
    ensures
        r == counted_against(trust_proxy, connecting, forwarded, peer),
{
    if !trust_proxy {
        return peer;
    }
    match (connecting, forwarded) {
        (Some(a), _) => a,
        (None, Some(a)) => a,
        (None, None) => peer,
    }
}

/// Some root that could be resolved contains the path.
pub open spec fn permitted(p: PathView, roots: Seq<Option<FilePath>>) -> bool {
    exists|i: int|
        0 <= i < roots.len() && (#[trigger] roots[i]) is Some && p.starts_with(roots[i].unwrap()@)
}

/// Confirm that a path really lies inside one of the roots. Both are given with
/// all links followed, or not at all when that failed.
///
/// The path always comes from our own database, never from the request, so this
/// is belt and braces, but a symlink inside the music tree could otherwise point
/// anywhere on the host, and this server is internet-facing.
pub fn verify_within(resolved: Option<FilePath>, roots: &Vec<Option<FilePath>>) -> (r: Result<
    FilePath,
    ServerError,
>)
    ensures
        match resolved {
            Some(p) => if permitted(p@, roots@) {
                r == Ok::<FilePath, ServerError>(p)
            } else {
                r == Err::<FilePath, ServerError>(ServerError::NotFound)
            },
            None => r == Err::<FilePath, ServerError>(ServerError::NotFound),
        },
{
    let p = match resolved {
        Some(p) => p,
        None => {
            return Err(ServerError::NotFound);
        },
    };
    for i in 0..roots.len()
        invariant
            resolved == Some(p),
            forall|k: int|
                0 <= k < i ==> !((#[trigger] roots@[k]) is Some && p@.starts_with(
                    roots@[k].unwrap()@,
                )),
    {
        if let Some(root) = &roots[i] {
            if p.starts_with(root) {
                return Ok(p);
            }
        }
    }
    Err(ServerError::NotFound)
}

/// How many albums a request may list.
pub const MAX_LISTED: i64 = 5000;

/// What a request asks a listing for.
pub struct AlbumsQuery {
    pub sort: Option<String>,
    pub search: Option<String>,
    pub limit: Option<i64>,
}

/// The sort that a request asks for, where there is one of that name.
pub open spec fn asked_sort(name: Option<Seq<char>>) -> Option<AlbumSort> {
    match name {
        Some(name) => query::sort_named(name),
        None => Some(AlbumSort::Artist),
    }
}

/// How many albums are listed for a request.
pub open spec fn listed(limit: Option<i64>) -> Option<i64> {
    match limit {
        Some(n) => Some(
            if n < 1 {
                1
            } else if n > MAX_LISTED {
                MAX_LISTED
            } else {
                n
            },
        ),
        None => None,
    }
}

/// The listing that a request asks for: sorted by artist unless it says
/// otherwise, of albums that are there, and of no more than so many.
pub fn albums_request(request: AlbumsQuery) -> (r: Result<(AlbumSort, AlbumFilter), ServerError>)
    ensures
        ({
            match asked_sort(text::opt_text(request.sort)) {
                Some(s) => r matches Ok((sort, filter)) && {
                    &&& sort == s
                    &&& filter.search == request.search
                    &&& !filter.include_missing
                    &&& filter.limit == listed(request.limit)
                },
                None => r matches Err(ServerError::BadRequest(m)) && m@ == "unknown sort '"@
                    + request.sort.unwrap()@ + "'"@,
            }
        }),
{
    let sort = match &request.sort {
        Some(name) => match AlbumSort::parse(name) {
            Some(s) => s,
            None => {
                let mut m = chars_of("unknown sort '");
                append_text(&mut m, name);
                append_text(&mut m, "'");
                return Err(ServerError::BadRequest(text_of(&m)));
            },
        },
        None => AlbumSort::Artist,
    };
    let limit = match request.limit {
        Some(n) => Some(
            if n < 1 {
                1
            } else if n > MAX_LISTED {
                MAX_LISTED
            } else {
                n
            },
        ),
        None => None,
    };
    Ok((sort, AlbumFilter { search: request.search, include_missing: false, limit }))
}

/// A header that no proxy is trusted to set changes nothing: an attacker cannot
/// invent a new address per guess.
pub proof fn untrusted_headers_are_ignored(
    peer: ClientAddr,
    connecting: Option<ClientAddr>,
    forwarded: Option<ClientAddr>,
)
    ensures
        counted_against(false, connecting, forwarded, peer) == peer,
        counted_against(true, None, None, peer) == peer,
{
}

/// The address an attempt is counted against.
pub open spec fn counted_against(
    trust_proxy: bool,
    connecting: Option<ClientAddr>,
    forwarded: Option<ClientAddr>,
    peer: ClientAddr,
) -> ClientAddr {
    if !trust_proxy {
        peer
    } else {
        match (connecting, forwarded) {
            (Some(a), _) => a,
            (None, Some(a)) => a,
            (None, None) => peer,
        }
    }
}

} // verus!
