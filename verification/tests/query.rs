//! Questions to the library.

use albumplayer::error::Error;
use albumplayer::model::Real;
use albumplayer::path::FilePath;
use albumplayer::query::{
    album_art, album_exists, album_replaygain, albums_sql, artists_sql, doctor, like_pattern, AlbumArt, AlbumFilter,
    AlbumSort,
};

fn decibels(value: f64) -> Option<Real> {
    Some(Real { bits: value.to_bits() })
}

#[test]
fn album_sort_parses_known_names() {
    assert_eq!(AlbumSort::parse("plays"), Some(AlbumSort::Plays));
    assert_eq!(AlbumSort::parse("LAST"), Some(AlbumSort::LastPlayed));
    assert_eq!(AlbumSort::parse("nonsense"), None);
}

#[test]
fn search_wildcards_are_escaped() {
    assert_eq!(like_pattern("100%"), "%100\\%%");
    assert_eq!(like_pattern("a_b"), "%a\\_b%");
}

#[test]
fn backslashes_in_a_search_are_literal_too() {
    assert_eq!(like_pattern("a\\b"), "%a\\\\b%");
    assert_eq!(like_pattern(""), "%%");
}

#[test]
fn an_album_without_replaygain_reports_none() {
    assert_eq!(album_replaygain((None, None), (None, None)), (None, None));
    assert_eq!(album_art(None), None);
}

#[test]
fn a_measured_gain_is_used_when_nothing_is_tagged() {
    let (gain, peak) = album_replaygain((None, None), (decibels(-7.8), decibels(1.1)));
    assert_eq!(gain, decibels(-7.8));
    assert_eq!(peak, decibels(1.1));
}

#[test]
fn tagged_gain_outranks_a_measured_one() {
    let (gain, _) = album_replaygain((decibels(-4.0), decibels(0.98)), (decibels(-7.8), decibels(1.1)));
    assert_eq!(gain, decibels(-4.0), "the file's own tag wins");
}

#[test]
fn folder_art_outranks_a_fetched_cover() {
    assert_eq!(
        album_art(Some((None, Some("1.jpg".into())))),
        Some(AlbumArt::Cached("1.jpg".into()))
    );
    assert_eq!(
        album_art(Some((Some("/d/cover.jpg".into()), Some("1.jpg".into())))),
        Some(AlbumArt::Folder(FilePath::parse("/d/cover.jpg")))
    );
}

#[test]
fn a_cached_cover_resolves_against_whichever_cache_is_configured() {
    // The same database served from a host and from a container must find its
    // covers in each place.
    let art = AlbumArt::Cached("42.jpg".into());
    assert_eq!(
        art.resolve(&FilePath::parse("/data/art")),
        FilePath::parse("/data/art/42.jpg")
    );
    assert_eq!(
        art.resolve(&FilePath::parse("/home/me/.cache/albumplayer/art")),
        FilePath::parse("/home/me/.cache/albumplayer/art/42.jpg")
    );
}

#[test]
fn missing_album_is_reported_as_not_found() {
    assert!(matches!(album_exists(42, 0), Err(Error::NotFound { kind: "album", id: 42 })));
    assert_eq!(album_exists(42, 1), Ok(()));
}

#[test]
fn listings_are_filtered_and_ordered_as_asked() {
    let all = albums_sql(AlbumSort::Artist, &AlbumFilter { search: None, include_missing: true, limit: None });
    assert!(!all.contains("al.present = 1"));
    assert!(!all.contains("LIMIT"));
    let some = albums_sql(
        AlbumSort::Year,
        &AlbumFilter { search: Some("x".into()), include_missing: false, limit: Some(7) },
    );
    assert!(some.contains("al.present = 1"));
    assert!(some.contains("LIKE ?1"));
    assert!(some.contains(AlbumSort::Year.order_by()));
    assert!(some.ends_with(" LIMIT 7"), "{some}");
    assert!(artists_sql(Some(3)).ends_with(" LIMIT 3"));
    assert!(!artists_sql(None).contains("LIMIT"));
}

#[test]
fn the_library_check_asks_nine_questions() {
    let kinds: Vec<&str> = doctor().iter().map(|c| c.kind).collect();
    assert_eq!(kinds.len(), 9);
    assert_eq!(kinds[0], "no-album-tag");
    assert_eq!(kinds[8], "mixed-codecs");
}

#[test]
fn errors_say_what_is_wrong() {
    assert_eq!(Error::NotFound { kind: "album", id: 42 }.to_text(), "no such album with id 42");
    assert_eq!(
        Error::SchemaTooNew { found: 9, supported: 5 }.to_text(),
        "database schema is version 9, but this build understands 5"
    );
    assert_eq!(
        Error::NoRoots.to_text(),
        "no library roots configured; add one with `albumplayer scan <DIR>`"
    );
}
