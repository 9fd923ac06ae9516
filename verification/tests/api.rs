//! What the HTTP routes decide.

use albumplayer::api::{
    albums_request, client_address, last_forwarded, require_token, token_from, verify_within, AlbumsQuery,
};
use albumplayer::auth::{Auth, ClientAddr, SECOND};
use albumplayer::error::Error;
use albumplayer::path::FilePath;
use albumplayer::query::AlbumSort;
use albumplayer::server::ServerError;

/// The address that a dotted text stands for.
fn address(text: &str) -> Option<ClientAddr> {
    let parts: Vec<u32> = text.split('.').map(|p| p.parse::<u8>().ok().map(u32::from)).collect::<Option<_>>()?;
    match parts[..] {
        [a, b, c, d] => Some(ClientAddr::V4(a << 24 | b << 16 | c << 8 | d)),
        _ => None,
    }
}

#[test]
fn a_bearer_header_supplies_the_token() {
    assert_eq!(token_from(Some("Bearer abc123"), None).as_deref(), Some("abc123"));
}

#[test]
fn a_query_parameter_supplies_the_token_for_media_tags() {
    // <audio src> cannot set headers, so this path has to work.
    assert_eq!(token_from(None, Some("token=abc123")).as_deref(), Some("abc123"));
}

#[test]
fn the_header_wins_over_the_query_string() {
    assert_eq!(
        token_from(Some("Bearer fromheader"), Some("token=fromquery")).as_deref(),
        Some("fromheader")
    );
}

#[test]
fn requests_without_a_token_yield_nothing() {
    assert_eq!(token_from(None, None), None);
    // A malformed scheme is not a token.
    assert_eq!(token_from(Some("Basic abc"), None), None);
    // A different query parameter is not a token either.
    assert_eq!(token_from(None, Some("other=1")), None);
}

#[test]
fn the_token_may_stand_among_other_parameters() {
    assert_eq!(token_from(None, Some("a=1&token=x=y&token=z")).as_deref(), Some("x=y"));
    assert_eq!(token_from(None, Some("token")), None);
}

#[test]
fn forwarded_headers_are_ignored_unless_a_proxy_is_trusted() {
    // Otherwise an attacker invents a new address per guess and the login lockout
    // never engages.
    let peer = address("203.0.113.7").unwrap();
    assert_eq!(
        client_address(false, address("5.6.7.8"), address(&last_forwarded("1.2.3.4")), peer),
        peer,
        "the socket address must win when no proxy is trusted"
    );
}

#[test]
fn a_trusted_proxy_supplies_the_real_client() {
    // Behind a tunnel every request shares one peer address, so without this one
    // attacker would lock out the whole household.
    let peer = address("127.0.0.1").unwrap();
    assert_eq!(client_address(true, address("5.6.7.8"), None, peer), address("5.6.7.8").unwrap());

    // With one hop, the last entry is what that hop actually saw; earlier ones are
    // whatever the caller claimed.
    assert_eq!(
        client_address(true, None, address(&last_forwarded("1.1.1.1, 9.9.9.9")), peer),
        address("9.9.9.9").unwrap()
    );
}

#[test]
fn a_trusted_proxy_falls_back_to_the_socket_when_headers_are_absent() {
    let peer = address("203.0.113.7").unwrap();
    assert_eq!(client_address(true, None, None, peer), peer);
    // Garbage in the header must not be taken as an address either.
    assert_eq!(client_address(true, None, address(&last_forwarded("not-an-ip")), peer), peer);
}

#[test]
fn files_outside_the_permitted_roots_are_refused() {
    let roots = vec![Some(FilePath::parse("/srv/music"))];

    // A genuine track resolves.
    let inside = Some(FilePath::parse("/srv/music/song.mp3"));
    assert!(verify_within(inside, &roots).is_ok());

    // Anything above the root does not, however it was spelled.
    let outside = Some(FilePath::parse("/srv/secret.txt"));
    assert!(matches!(verify_within(outside, &roots), Err(ServerError::NotFound)));
    // A name that merely begins like the root is outside too.
    let beside = Some(FilePath::parse("/srv/musical/song.mp3"));
    assert!(verify_within(beside, &roots).is_err());
}

#[test]
fn a_symlink_escaping_the_music_tree_is_refused() {
    // A tempting way in: a symlink inside the library pointing outside of it. Once
    // the link is followed, the path is where it points.
    let followed = Some(FilePath::parse("/srv/outside.txt"));
    assert!(verify_within(followed, &vec![Some(FilePath::parse("/srv/music"))]).is_err());
}

#[test]
fn a_missing_file_is_not_found() {
    assert!(verify_within(None, &vec![None]).is_err());
    assert!(verify_within(Some(FilePath::parse("/x.mp3")), &vec![None]).is_err());
}

#[test]
fn protected_routes_need_a_live_session() {
    let mut auth = Auth::new("test-password", 60 * SECOND).unwrap();
    assert!(matches!(require_token(&auth, None, None, 0), Err(ServerError::Unauthorized)));
    let token = auth.open_session(&[1, 2, 3], 0);
    let header = format!("Bearer {token}");
    assert!(require_token(&auth, Some(&header), None, 0).is_ok());
    assert!(require_token(&auth, None, Some(&format!("token={token}")), 0).is_ok());
    assert!(matches!(
        require_token(&auth, Some(&header), None, 60 * SECOND),
        Err(ServerError::Unauthorized)
    ));
}

#[test]
fn listings_are_bounded() {
    let ask = |sort: Option<&str>, limit: Option<i64>| {
        albums_request(AlbumsQuery { sort: sort.map(str::to_string), search: None, limit })
    };
    let (sort, filter) = ask(None, None).unwrap();
    assert_eq!((sort, filter.limit, filter.include_missing), (AlbumSort::Artist, None, false));
    assert_eq!(ask(Some("year"), Some(0)).unwrap().1.limit, Some(1));
    assert_eq!(ask(Some("year"), Some(1_000_000)).unwrap().1.limit, Some(5000));
    match ask(Some("size"), None) {
        Err(ServerError::BadRequest(m)) => assert_eq!(m, "unknown sort 'size'"),
        _ => panic!("an unknown sort is a bad request"),
    }
}

#[test]
fn only_the_callers_own_mistakes_are_explained() {
    assert_eq!(ServerError::Unauthorized.answer(), (401, "authentication required".to_string()));
    assert_eq!(ServerError::NotFound.answer(), (404, "not found".to_string()));
    assert_eq!(ServerError::BadRequest("why".into()).answer(), (400, "why".to_string()));
    assert_eq!(
        ServerError::Core(Error::NotFound { kind: "album", id: 7 }).answer(),
        (404, "no such album with id 7".to_string())
    );
    assert_eq!(ServerError::Core(Error::NoRoots).answer(), (500, "internal error".to_string()));
    assert_eq!(ServerError::Config("secret".into()).answer(), (500, "internal error".to_string()));
    assert_eq!(ServerError::Failed("disk".into()).answer(), (500, "internal error".to_string()));
    assert_eq!(ServerError::Internal.answer(), (500, "internal error".to_string()));
}
