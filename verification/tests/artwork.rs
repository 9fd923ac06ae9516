//! Fetching cover art.

use albumplayer::artwork::{
    after_reply, backoff_for, cover_name, cover_url, default_cache_dir, is_transient, label, looks_like_image,
    lucene_escape, named_releases, parse_releases, pending_sql, search_url, tagged_release, to_try, urlencode, Next,
    Options, Outcome, RateLimiter, Reply, Report, Service, BACKOFF_BASE, MIN_REQUEST_INTERVAL, USER_AGENT,
};

#[test]
fn lucene_syntax_in_titles_is_escaped() {
    // Unescaped, the parentheses and colon would be query syntax.
    assert_eq!(
        lucene_escape("Album (Remastered)"),
        r"Album \(Remastered\)"
    );
    assert_eq!(lucene_escape("AC/DC"), r"AC\/DC");
    assert_eq!(lucene_escape("Kid A"), "Kid A");
}

#[test]
fn query_values_are_percent_encoded() {
    assert_eq!(urlencode("Kid A"), "Kid%20A");
    assert_eq!(urlencode("a&b=c"), "a%26b%3Dc");
    assert_eq!(urlencode("plain-Text_1.0~"), "plain-Text_1.0~");
}

#[test]
fn non_ascii_titles_survive_encoding() {
    // Sigur Rós, Motörhead and friends must not be mangled.
    assert_eq!(urlencode("Rós"), "R%C3%B3s");
}

#[test]
fn only_real_images_are_accepted() {
    assert!(looks_like_image(&[0xFF, 0xD8, 0xFF, 0xE0]));
    assert!(looks_like_image(b"\x89PNG\r\n\x1a\n"));
    assert!(looks_like_image(b"RIFF____WEBPVP8 "));
    // An HTML error page must never be stored as a cover.
    assert!(!looks_like_image(b"<!DOCTYPE html><html>404"));
    assert!(!looks_like_image(b""));
}

#[test]
fn only_retryable_statuses_are_retried() {
    // Throttling and server faults are worth another go.
    for status in [429, 500, 502, 503, 504] {
        assert!(is_transient(status), "{status}");
    }
    // A genuine "no such release" is not.
    for status in [200, 400, 401, 403, 404] {
        assert!(!is_transient(status), "{status}");
    }
}

#[test]
fn backoff_grows_with_each_attempt() {
    assert_eq!(backoff_for(1), BACKOFF_BASE);
    assert_eq!(backoff_for(2), BACKOFF_BASE * 2);
    assert_eq!(backoff_for(3), BACKOFF_BASE * 4);
    assert!(backoff_for(1) < backoff_for(4));
}

#[test]
fn the_rate_limiter_spaces_requests_out() {
    let mut limiter = RateLimiter::new();
    let started = 50_000;
    let mut now = started;
    now += limiter.wait(now); // first call is free
    assert_eq!(now, started);
    limiter.sent(now);
    now += limiter.wait(now); // second must wait out the interval
    limiter.sent(now);
    assert!(now - started >= MIN_REQUEST_INTERVAL, "waited only {}", now - started);
    // Time that has passed anyway counts.
    assert_eq!(limiter.wait(now + 1000), MIN_REQUEST_INTERVAL - 1000);
    assert_eq!(limiter.wait(now + 5000), 0);
}

#[test]
fn the_user_agent_identifies_the_client() {
    // MusicBrainz rejects requests from anonymous or generic clients.
    assert!(USER_AGENT.starts_with("AlbumPlayer/"));
    assert!(USER_AGENT.contains("http"));
}

#[test]
fn searches_name_the_artist_and_the_release() {
    assert_eq!(
        search_url("AC/DC", "Kid A"),
        "https://musicbrainz.org/ws/2/release/?query=artist%3AAC%5C%2FDC%20AND%20release%3AKid%20A&fmt=json&limit=3"
    );
    assert_eq!(cover_url("abc"), "https://coverartarchive.org/release/abc/front-500");
    assert_eq!(cover_name(42), "42.jpg");
    assert_eq!(label("A", "T"), "A — T");
}

#[test]
fn answers_are_read_for_their_releases() {
    assert_eq!(
        parse_releases(r#"{"releases":[{"id":"a"},{"title":"x"},{"id":7},{"id":"b"}]}"#).unwrap(),
        vec!["a", "b"]
    );
    assert_eq!(parse_releases(r#"{"count":0}"#).unwrap(), Vec::<String>::new());
    let broken = parse_releases("<html>").unwrap_err();
    assert!(broken.starts_with("MusicBrainz returned invalid JSON: "), "{broken}");
    assert!(broken.len() > "MusicBrainz returned invalid JSON: ".len());
}

#[test]
fn releases_without_an_identifier_are_passed_over() {
    assert_eq!(named_releases(Some(vec![None, Some("a".into()), None])), vec!["a"]);
    assert_eq!(named_releases(None), Vec::<String>::new());
    assert_eq!(tagged_release(&Some("abc".into())).as_deref(), Some("abc"));
    assert_eq!(tagged_release(&Some("  ".into())), None);
    assert_eq!(tagged_release(&None), None);
    let many: Vec<String> = (0..5).map(|i| format!("{i}")).collect();
    assert_eq!(to_try(&many), vec!["0", "1", "2"]);
    assert_eq!(to_try(&many[..1].to_vec()), vec!["0"]);
}

#[test]
fn replies_decide_what_comes_next() {
    let status = |service: Service, attempt: u32, code: u16| after_reply(service, attempt, Reply::Status(code, "said".into()));
    assert!(matches!(after_reply(Service::MusicBrainz, 1, Reply::Body), Next::Read));
    assert!(matches!(status(Service::MusicBrainz, 1, 404), Next::Nothing));
    assert!(matches!(status(Service::CoverArtArchive, 1, 400), Next::Nothing));
    assert!(matches!(status(Service::MusicBrainz, 1, 400), Next::Fail(m) if m == "MusicBrainz: said"));
    assert!(matches!(status(Service::MusicBrainz, 2, 503), Next::Retry(4000)));
    assert!(matches!(
        status(Service::CoverArtArchive, 4, 503),
        Next::Fail(m) if m == "cover art archive kept answering 503 after 4 attempts"
    ));
    assert!(matches!(
        after_reply(Service::CoverArtArchive, 1, Reply::Failed("timeout".into())),
        Next::Fail(m) if m == "cover art archive: timeout"
    ));
}

#[test]
fn the_cache_directory_follows_the_environment() {
    let some = |s: &str| Some(s.to_string());
    assert_eq!(default_cache_dir(some("/art"), some("/c"), some("/h")).unwrap().to_text(), "/art");
    assert_eq!(default_cache_dir(some(""), some("/c"), some("/h")).unwrap().to_text(), "/c/albumplayer/art");
    assert_eq!(default_cache_dir(None, None, some("/h")).unwrap().to_text(), "/h/.cache/albumplayer/art");
    assert_eq!(default_cache_dir(None, None, None).unwrap_err(), "neither XDG_CACHE_HOME nor HOME is set");
}

#[test]
fn albums_already_checked_are_not_looked_up_again() {
    let once = pending_sql(&Options { force: false, limit: None });
    assert!(once.contains("al.art_checked_at IS NULL"));
    let again = pending_sql(&Options { force: true, limit: Some(4) });
    assert!(!again.contains("art_checked_at"));
    assert!(again.ends_with(" LIMIT 4"), "{again}");
}

#[test]
fn every_lookup_is_noted() {
    let mut report = Report::new(3);
    report.note("A".into(), Outcome::Fetched);
    report.note("B".into(), Outcome::NotFound);
    report.note("C".into(), Outcome::Failed("broken".into()));
    assert_eq!((report.fetched, report.not_found, report.failed), (1, 1, 1));
    assert_eq!(report.errors, vec![("C".to_string(), "broken".to_string())]);
}
