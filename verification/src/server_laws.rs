//! What serving promises: who is let in, what may be configured, how much is
//! listed, how failures are answered, and what goes into the play log.

use vstd::prelude::*;

use crate::api;
use crate::auth;
use crate::auth::{ClientAddr, SessionView};
use crate::config;
use crate::config::{Config, Env};
use crate::error;
use crate::error::Error;
use crate::path;
use crate::path::{FilePath, PathView};
use crate::player::{PlayState, PlayerEvent};
use crate::playlog::{LogAction, LoggerView};
use crate::plays::PlaySession;
use crate::query;
use crate::query::AlbumSort;
use crate::server;
use crate::server::ServerError;
use crate::text;
use crate::text_laws;

verus! {

/// A bearer token is what counts where the header gives one, whatever the query
/// says: the request is let in exactly while that token's session is open.
pub proof fn bearer_tokens_decide(
    sessions: Seq<SessionView>,
    token: Seq<char>,
    query: Option<Seq<char>>,
    now: u128,
)
    ensures
        api::let_in(sessions, Some("Bearer "@ + token), query, now) <==> exists|i: int|
            0 <= i < sessions.len() && (#[trigger] sessions[i]).token == token && sessions[i].expires
                > now,
{
    reveal_strlit("Bearer ");
    let h = "Bearer "@ + token;
    assert(h.take(7) =~= "Bearer "@);
    assert(h.skip(7) =~= token);
}

/// Without any token nobody is let in, and a header that holds no bearer token
/// leaves the query to decide.
pub proof fn nobody_gets_in_without_a_token(
    sessions: Seq<SessionView>,
    header: Seq<char>,
    query: Option<Seq<char>>,
    now: u128,
)
    requires
        !"Bearer "@.is_prefix_of(header),
    ensures
        !api::let_in(sessions, None, None, now),
        !api::let_in(sessions, Some(header), None, now),
        api::let_in(sessions, Some(header), query, now) == api::let_in(sessions, None, query, now),
{
}

/// In a query the first `token` counts, as far as the next `&`; other parameters
/// are passed over.
pub proof fn query_tokens_are_found(token: Seq<char>, pair: Seq<char>, more: Seq<char>)
    requires
        !token.contains('&'),
        !pair.contains('&'),
        !"token="@.is_prefix_of(pair),
    ensures
        api::request_token(None, Some("token="@ + token)) == Some(token),
        api::request_token(None, Some("token="@ + token + seq!['&'] + more)) == Some(token),
        api::request_token(None, Some(pair)) is None,
        api::request_token(None, Some(pair + seq!['&'] + more)) == api::request_token(
            None,
            Some(more),
        ),
{
    reveal_strlit("token=");
    let p = "token="@ + token;
    assert(!p.contains('&')) by {
        if p.contains('&') {
            let i = choose|i: int| 0 <= i < p.len() && p[i] == '&';
            if i >= 6 {
                assert(token[i - 6] == '&');
            }
        }
    }
    text_laws::texts_come_apart_at_each_separator(p, more, '&');
    text_laws::texts_come_apart_at_each_separator(pair, more, '&');
    lemma_token_pair(p);
    lemma_token_pair(pair);
    assert(p.take(6) =~= "token="@);
    assert(p.skip(6) =~= token);
    let rest = text::split(more, '&');
    lemma_later_pairs(pair, rest, 0);
    assert(seq![p][0] == p && (seq![p] + rest)[0] == p);
    assert(seq![pair][0] == pair && (seq![pair] + rest)[0] == pair);
    assert(api::token_param(seq![pair], 1) is None);
}

proof fn lemma_token_pair(p: Seq<char>)
    ensures
        api::token_pair(p) == if "token="@.is_prefix_of(p) {
            Some(p.skip(6))
        } else {
            None
        },
{
    reveal_strlit("token=");
    reveal_strlit("token");
    let i = api::equals_at(p, 0);
    lemma_equals_at(p, 0);
    if "token="@.is_prefix_of(p) {
        let t = "token="@;
        assert forall|k: int| 0 <= k < 6 implies p[k] == t[k] by {
            assert(p.take(6)[k] == p[k]);
        }
        assert(p[5] == t[5]);
        if i < 5 {
            assert(p[i] == t[i]);
        }
        assert(p.take(5) =~= "token"@);
    } else if i < p.len() && p.take(i) == "token"@ {
        assert(p.take(i).len() == i);
        assert(p.take(6) =~= "token="@) by {
            assert forall|k: int| 0 <= k < 5 implies p[k] == "token"@[k] by {
                assert(p.take(5)[k] == p[k]);
            }
        }
    }
}

proof fn lemma_equals_at(s: Seq<char>, i: int)
    requires
        0 <= i <= s.len(),
    ensures
        i <= api::equals_at(s, i) <= s.len(),
        api::equals_at(s, i) < s.len() ==> s[api::equals_at(s, i)] == '=',
        forall|k: int| i <= k < api::equals_at(s, i) ==> s[k] != '=',
    decreases s.len() - i,
{
    if i < s.len() && s[i] != '=' {
        lemma_equals_at(s, i + 1);
    }
}

proof fn lemma_later_pairs(p: Seq<char>, rest: Seq<Seq<char>>, i: int)
    requires
        0 <= i <= rest.len(),
    ensures
        api::token_param(seq![p] + rest, i + 1) == api::token_param(rest, i),
    decreases rest.len() - i,
{
    if i < rest.len() {
        assert((seq![p] + rest)[i + 1] == rest[i]);
        lemma_later_pairs(p, rest, i + 1);
    }
}

/// Of the hops that a request was forwarded over the last one counts, without the
/// white space around it.
pub proof fn the_last_hop_counts(earlier: Seq<char>, last: Seq<char>)
    requires
        !last.contains(','),
    ensures
        api::last_entry(last) == text::trimmed(last),
        api::last_entry(earlier + seq![','] + last) == text::trimmed(last),
    decreases earlier.len(),
{
    text_laws::texts_come_apart_at_each_separator(last, Seq::empty(), ',');
    if !earlier.contains(',') {
        text_laws::texts_come_apart_at_each_separator(earlier, last, ',');
    } else {
        let i = lemma_first_comma(earlier, 0);
        let a = earlier.take(i);
        let b = earlier.skip(i + 1);
        assert(earlier =~= a + seq![','] + b);
        assert(!a.contains(',')) by {
            if a.contains(',') {
                let k = choose|k: int| 0 <= k < a.len() && a[k] == ',';
                assert(earlier[k] == ',');
            }
        }
        the_last_hop_counts(b, last);
        assert(earlier + seq![','] + last =~= a + seq![','] + (b + seq![','] + last));
        text_laws::texts_come_apart_at_each_separator(a, b + seq![','] + last, ',');
        text_laws::lemma_split_has_pieces(b + seq![','] + last, ',');
    }
}

proof fn lemma_first_comma(s: Seq<char>, i: int) -> (r: int)
    requires
        0 <= i < s.len(),
        exists|k: int| i <= k < s.len() && s[k] == ',',
    ensures
        i <= r < s.len(),
        s[r] == ',',
        forall|k: int| i <= k < r ==> s[k] != ',',
    decreases s.len() - i,
{
    if s[i] == ',' {
        i
    } else {
        lemma_first_comma(s, i + 1)
    }
}

/// Behind a trusted proxy an attempt is counted against the address that the proxy
/// connected for, failing that the one it forwarded for.
pub proof fn trusted_headers_name_the_client(
    peer: ClientAddr,
    client: ClientAddr,
    forwarded: Option<ClientAddr>,
)
    ensures
        api::counted_against(true, Some(client), forwarded, peer) == client,
        api::counted_against(true, None, Some(client), peer) == client,
{
}

/// A file is served exactly if it lies under a root: whatever is joined to a root
/// may be, and nothing may where no root could be resolved.
pub proof fn files_are_served_from_their_roots(
    roots: Seq<Option<FilePath>>,
    i: int,
    rel: PathView,
    p: PathView,
)
    requires
        0 <= i < roots.len(),
        roots[i] is Some,
        !rel.rooted,
        rel.parts.len() > 0 ==> rel.parts[0] != path::dot(),
    ensures
        api::permitted(roots[i].unwrap()@.join(rel), roots),
        api::permitted(p, roots) ==> exists|k: int|
            0 <= k < roots.len() && (#[trigger] roots[k]) is Some && p.strip_prefix(
                roots[k].unwrap()@,
            ) is Some,
        !api::permitted(p, Seq::empty()),
{
    path::strip_undoes_join(roots[i].unwrap()@, rel);
}

/// A listing holds at least one album and at most five thousand where a limit is
/// asked for, exactly as many as asked for in between, and all of them otherwise.
/// It is by artist unless another order is asked for.
pub proof fn limits_are_kept_in_bounds(n: i64, name: Seq<char>)
    ensures
        api::asked_sort(None) == Some(AlbumSort::Artist),
        api::asked_sort(Some(name)) == query::sort_named(name),
        api::listed(None) is None,
        1 <= n <= 5000 ==> api::listed(Some(n)) == Some(n),
        n <= 0 ==> api::listed(Some(n)) == Some(1i64),
        n > 5000 ==> api::listed(Some(n)) == Some(5000i64),
{
}

/// The server starts only with a password of eight characters or more that is not
/// blank, an address that can be listened on and a whole number of hours.
pub proof fn there_is_no_server_without_a_password(env: Env, bind_fault: Option<Seq<char>>)
    ensures
        env.password is None ==> config::refusal(env, bind_fault) is Some,
        env.password matches Some(p) && (p@.len() < 8 || text::is_blank(p@)) ==> config::refusal(
            env,
            bind_fault,
        ) is Some,
        bind_fault is Some ==> config::refusal(env, bind_fault) is Some,
        env.password matches Some(p) && p@.len() >= 8 && !text::is_blank(p@) && bind_fault is None
            && env.session_hours is None ==> config::refusal(env, bind_fault) is None,
        env.password matches Some(p) && p@.len() >= 8 && !text::is_blank(p@) && bind_fault is None
            && (env.session_hours matches Some(h) && text::is_blank(h@)) ==> config::refusal(
            env,
            bind_fault,
        ) is None,
        env.session_hours matches Some(h) && !text::is_blank(h@) && text::parse_unsigned(
            h@,
            u64::MAX as nat,
        ) is None ==> config::refusal(env, bind_fault) is Some,
{
    lemma_720();
    let none = Seq::<char>::empty();
    text_laws::trimming_takes_off_white_space(none, none, none);
    assert(none + none + none =~= none);
}

proof fn lemma_720()
    ensures
        text::parse_unsigned("720"@, u64::MAX as nat) == Some(720nat),
{
    reveal_strlit("720");
    text_laws::written_numbers_read_back(720);
    let d = text::decimal_text(720);
    assert(text::decimal_text(7) =~= seq!['7']);
    assert(text::decimal_text(72) =~= seq!['7', '2']);
    assert(d =~= "720"@);
    assert(text::decimal("720"@) == 720);
}

/// What is not set, or set to a blank, takes its usual value: music under
/// `/music`, data under `/data`, port 8080 on every interface, a scan on start,
/// sessions of thirty days and no proxy trusted.
pub proof fn settings_have_usual_values(c: Config, env: Env, has_ui: bool)
    requires
        c.is_for(env, has_ui),
    ensures
        env.music_root is None ==> c.music_root@ == path::path_of("/music"@),
        env.data_dir is None ==> c.data_dir@ == path::path_of("/data"@),
        env.bind is None ==> c.bind@ == "0.0.0.0:8080"@,
        env.scan_on_start is None ==> c.scan_on_start,
        env.session_hours is None ==> c.session_ttl == 30 * 24 * 3600 * 1_000_000_000,
        env.trust_proxy is None ==> !c.trust_proxy,
        env.ui_dir is None && has_ui ==> c.ui_dir is Some && c.ui_dir.unwrap()@ == path::path_of(
            "/app/ui"@,
        ),
        !has_ui ==> c.ui_dir is None,
{
    lemma_720();
    lemma_words();
}

/// What is set is taken as it stands.
pub proof fn settings_are_taken(c: Config, env: Env, v: String)
    requires
        c.is_for(env, true),
        !text::is_blank(v@),
    ensures
        env.music_root == Some(v) ==> c.music_root@ == path::path_of(v@),
        env.data_dir == Some(v) ==> c.data_dir@ == path::path_of(v@),
        env.bind == Some(v) ==> c.bind@ == v@,
        env.password == Some(v) ==> c.password == v,
        env.ui_dir == Some(v) ==> c.ui_dir is Some && c.ui_dir.unwrap()@ == path::path_of(v@),
        env.scan_on_start == Some(v) ==> c.scan_on_start == config::is_yes(v@),
        env.trust_proxy == Some(v) ==> c.trust_proxy == config::is_yes(v@),
        env.session_hours == Some(v) ==> text::parse_unsigned(v@, u64::MAX as nat) is Some
            && c.session_ttl == text::parse_unsigned(v@, u64::MAX as nat).unwrap()
            * 3_600_000_000_000,
{
    if env.session_hours == Some(v) {
        let h = text::parse_unsigned(v@, u64::MAX as nat).unwrap();
        assert(h * 3600 * 1_000_000_000 == h * 3_600_000_000_000) by (nonlinear_arith);
    }
}

proof fn lemma_words()
    ensures
        config::is_yes("true"@),
        !config::is_yes("false"@),
{
    reveal_strlit("1");
    reveal_strlit("true");
    reveal_strlit("false");
    reveal_strlit("yes");
    reveal_strlit("on");
    let none = Seq::<char>::empty();
    text_laws::trimming_takes_off_white_space(none, "true"@, none);
    assert(none + "true"@ + none =~= "true"@);
    assert(text::ascii_lowered("true"@) =~= "true"@);
    text_laws::trimming_takes_off_white_space(none, "false"@, none);
    assert(none + "false"@ + none =~= "false"@);
    assert(text::ascii_lowered("false"@) =~= "false"@);
    assert("false"@.len() == 5 && "true"@.len() == 4);
}

/// A yes is a `1` or one of the words `true`, `yes` and `on`, in small or capital
/// letters, with or without white space around it.
pub proof fn yes_is_yes(front: Seq<char>, v: Seq<char>, back: Seq<char>)
    requires
        forall|i: int| 0 <= i < front.len() ==> text::is_white_space(#[trigger] front[i]),
        forall|i: int| 0 <= i < back.len() ==> text::is_white_space(#[trigger] back[i]),
        v.len() > 0 ==> !text::is_white_space(v.first()) && !text::is_white_space(v.last()),
    ensures
        config::is_yes(front + v + back) <==> {
            ||| text::ascii_lowered(v) == "1"@
            ||| text::ascii_lowered(v) == "on"@
            ||| text::ascii_lowered(v) == "yes"@
            ||| text::ascii_lowered(v) == "true"@
        },
{
    text_laws::trimming_takes_off_white_space(front, v, back);
}

/// Callers are told what they did wrong, with the status for it; what is our own
/// problem is an internal error, and nothing of it goes out.
pub proof fn failures_are_answered(e: ServerError, m: String, kind: &'static str, id: i64)
    ensures
        server::answer_of(ServerError::Unauthorized).0 == 401,
        server::answer_of(ServerError::NotFound).0 == 404,
        server::answer_of(ServerError::BadRequest(m)) == (400u16, m@),
        server::answer_of(ServerError::Core(Error::NotFound { kind, id })) == (
            404u16,
            error::error_text(Error::NotFound { kind, id }),
        ),
        e is Config || e is Internal || e is Failed || e == ServerError::Core(Error::NoRoots)
            ==> server::answer_of(e) == (500u16, "internal error"@),
        server::answer_of(e).0 == 500 ==> server::answer_of(e).1 == "internal error"@,
{
}

/// A listen is recorded against the session that is open, as starting when its
/// track started, with what was heard of it.
pub proof fn listens_are_dated_from_their_start(
    l: LoggerView,
    album_id: i64,
    track_id: i64,
    title: String,
    ms_played: i64,
    now: i64,
)
    ensures
        ({
            let started = l.after(PlayerEvent::TrackStarted { album_id, track_id, title }, now);
            let finished = PlayerEvent::TrackFinished { album_id, track_id, ms_played };
            &&& started.session == l.session
            &&& started.errors == l.errors
            &&& started.actions(finished) == seq![
                LogAction::Record { session: l.session, track_id, started_at: now, ms_played },
            ]
            &&& l.actions(PlayerEvent::TrackStarted { album_id, track_id, title }).len() == 0
        }),
{
}

/// A new album settles the open session and opens one for itself; the end of the
/// queue settles it and opens none.
pub proof fn sessions_follow_the_albums(
    l: LoggerView,
    s: PlaySession,
    album_id: i64,
    title: String,
    now: i64,
)
    requires
        l.session == Some(s),
    ensures
        l.actions(PlayerEvent::AlbumStarted { album_id, title }) == seq![
            LogAction::End(s),
            LogAction::Start(album_id),
        ],
        l.actions(PlayerEvent::QueueFinished) == seq![LogAction::End(s)],
        l.after(PlayerEvent::QueueFinished, now).session is None,
        l.after(PlayerEvent::AlbumStarted { album_id, title }, now).session is None,
        l.after(PlayerEvent::QueueFinished, now).actions(PlayerEvent::QueueFinished).len() == 0,
{
    assert(seq![LogAction::End(s)].push(LogAction::Start(album_id)) =~= seq![
        LogAction::End(s),
        LogAction::Start(album_id),
    ]);
}

/// Changes of state and errors are no business of the play log.
pub proof fn other_events_are_not_logged(l: LoggerView, state: PlayState, m: String, now: i64)
    ensures
        l.actions(PlayerEvent::StateChanged(state)).len() == 0,
        l.actions(PlayerEvent::Error(m)).len() == 0,
        l.after(PlayerEvent::StateChanged(state), now) == l,
        l.after(PlayerEvent::Error(m), now) == l,
{
}

/// An error says what is missing and under which number, or which version was found
/// and which is understood, in that order.
pub proof fn errors_name_their_cause(kind: &'static str, id: i64, found: i64, supported: i64)
    ensures
        ({
            let m = error::error_text(Error::NotFound { kind, id });
            let number = text::int_text(id as int);
            &&& ("no such "@ + kind@).is_prefix_of(m)
            &&& m.skip(m.len() - number.len()) == number
        }),
        ({
            let m = error::error_text(Error::SchemaTooNew { found, supported });
            let number = text::int_text(supported as int);
            &&& ("database schema is version "@ + text::int_text(found as int)).is_prefix_of(m)
            &&& m.skip(m.len() - number.len()) == number
        }),
{
    let m = error::error_text(Error::NotFound { kind, id });
    let number = text::int_text(id as int);
    let front = "no such "@ + kind@;
    assert(m.take(front.len() as int) =~= front);
    assert(m.skip(m.len() - number.len()) =~= number);
    let n = error::error_text(Error::SchemaTooNew { found, supported });
    let version = text::int_text(supported as int);
    let head = "database schema is version "@ + text::int_text(found as int);
    assert(n.take(head.len() as int) =~= head);
    assert(n.skip(n.len() - version.len()) =~= version);
}

} // verus!
