//! Bringing an older database up to date.

use albumplayer::error::Error;
use albumplayer::ffprobe::parse;
use albumplayer::group::group_into_albums;
use albumplayer::migrate::{
    cover_file_name, migrate, relative_folder_key, relative_suffix_key, upgrade_albums, Migration, StoredAlbum,
    SCHEMA_VERSION,
};
use albumplayer::model::TrackMeta;
use albumplayer::path::FilePath;

#[test]
fn fresh_database_is_at_current_version() {
    let steps = migrate(0).unwrap();
    assert_eq!(steps, vec![Migration::CreateSchema]);
    assert_eq!(steps[0].version(), SCHEMA_VERSION);
}

#[test]
fn an_older_database_takes_every_step_it_missed() {
    assert_eq!(
        migrate(1).unwrap(),
        vec![
            Migration::AddEnrichmentColumns,
            Migration::BareCoverNames,
            Migration::RelativeFolderKeys,
            Migration::RelativeTitleKeys,
        ]
    );
    assert_eq!(migrate(4).unwrap(), vec![Migration::RelativeTitleKeys]);
    assert_eq!(migrate(SCHEMA_VERSION).unwrap(), Vec::<Migration>::new());
    assert_eq!(migrate(3).unwrap().last().unwrap().version(), SCHEMA_VERSION);
}

#[test]
fn absolute_cover_paths_are_reduced_to_filenames() {
    assert_eq!(migrate(2).unwrap()[0], Migration::BareCoverNames);
    assert_eq!(
        cover_file_name("/home/me/.cache/albumplayer/art/1.jpg").as_deref(),
        Some("1.jpg"),
        "the cache directory must not be baked in"
    );
}

#[test]
fn directory_identities_are_made_relative_by_migration() {
    assert_eq!(migrate(3).unwrap()[0], Migration::RelativeFolderKeys);
    let roots = [FilePath::parse("/mnt/share/Music")];
    assert_eq!(
        relative_folder_key("dir:/mnt/share/Music/Bootleg", &roots).as_deref(),
        Some("dir:Bootleg"),
        "identity must not depend on the mount point"
    );
    assert_eq!(relative_folder_key("dir:/elsewhere/Bootleg", &roots), None);
}

#[test]
fn truncated_title_identities_are_made_relative_too() {
    assert_eq!(migrate(4).unwrap()[0], Migration::RelativeTitleKeys);
    let roots = [FilePath::parse("/mnt/share/Music")];
    assert_eq!(
        relative_suffix_key(
            "aa:beck|a western harvest field by m..||dir:/mnt/share/Music/Beck/AWHFBM",
            &roots
        )
        .as_deref(),
        Some("aa:beck|a western harvest field by m..||dir:Beck/AWHFBM")
    );
}

#[test]
fn a_newer_schema_is_refused_rather_than_downgraded() {
    assert!(matches!(migrate(SCHEMA_VERSION + 1), Err(Error::SchemaTooNew { .. })));
    assert_eq!(
        migrate(SCHEMA_VERSION + 1),
        Err(Error::SchemaTooNew { found: SCHEMA_VERSION + 1, supported: SCHEMA_VERSION })
    );
}

fn tagless(path: &str, album: Option<&str>) -> TrackMeta {
    let tags = match album {
        Some(a) => format!(r#""album":"{a}","artist":"Beck""#),
        None => String::new(),
    };
    let json = format!(r#"{{"format":{{"duration":"1.0","tags":{{{tags}}}}}}}"#);
    parse(&json, FilePath::parse(path), 0, 0, 1000).unwrap()
}

#[test]
fn migrated_keys_are_the_ones_a_scan_finds() {
    let roots = [FilePath::parse("/mnt/share/Music")];
    let scanned = |m: TrackMeta| group_into_albums(vec![m], &roots, &[]).remove(0).group_key;
    let unscoped = |m: TrackMeta| group_into_albums(vec![m], &[], &[]).remove(0).group_key;

    let path = "/mnt/share/Music/Bootleg/01.mp3";
    let old = unscoped(tagless(path, None));
    assert_eq!(old, "dir:/mnt/share/Music/Bootleg");
    assert_eq!(relative_folder_key(&old, &roots), Some(scanned(tagless(path, None))));

    let cut = Some("A Western Harvest Field By Moo");
    let path = "/mnt/share/Music/Beck/AWHFBM/01.mp3";
    let old = unscoped(tagless(path, cut));
    assert_eq!(relative_suffix_key(&old, &roots), Some(scanned(tagless(path, cut))));
}

fn stored(id: i64, title: &str, group_key: &str, cover: Option<&str>) -> StoredAlbum {
    StoredAlbum { id, title: title.into(), group_key: group_key.into(), cover: cover.map(str::to_string) }
}

fn row(a: &StoredAlbum) -> (i64, &str, &str, Option<&str>) {
    (a.id, a.title.as_str(), a.group_key.as_str(), a.cover.as_deref())
}

fn upgraded(version: i64, albums: Vec<StoredAlbum>) -> Vec<StoredAlbum> {
    let roots = [FilePath::parse("/mnt/share/Music")];
    let mut albums = albums;
    for step in migrate(version).unwrap() {
        albums = upgrade_albums(step, albums, &roots);
    }
    albums
}

#[test]
fn an_older_library_keeps_its_albums() {
    let albums = vec![
        stored(1, "T", "k", None),
        stored(2, "Bootleg", "dir:/mnt/share/Music/Bootleg", Some("/home/me/.cache/albumplayer/art/2.jpg")),
        stored(
            3,
            "A Western Harvest",
            "aa:beck|a western harvest field by m..||dir:/mnt/share/Music/Beck/AWHFBM",
            Some("3.jpg"),
        ),
        stored(4, "Elsewhere", "dir:/elsewhere/Bootleg", None),
    ];
    let after = upgraded(1, albums);
    let expected = vec![
        (1, "T", "k", None),
        (2, "Bootleg", "dir:Bootleg", Some("2.jpg")),
        (3, "A Western Harvest", "aa:beck|a western harvest field by m..||dir:Beck/AWHFBM", Some("3.jpg")),
        (4, "Elsewhere", "dir:/elsewhere/Bootleg", None),
    ];
    assert_eq!(after.iter().map(row).collect::<Vec<_>>(), expected);

    // Up to date, nothing is left to do.
    let again = upgraded(SCHEMA_VERSION, after);
    assert_eq!(again.iter().map(row).collect::<Vec<_>>(), expected);
}

#[test]
fn two_folders_never_end_up_under_one_key() {
    let albums = vec![
        stored(1, "Old", "dir:/mnt/share/Music/Bootleg", None),
        stored(2, "New", "dir:Bootleg", None),
    ];
    let after = upgraded(3, albums);
    assert_eq!(
        after.iter().map(row).collect::<Vec<_>>(),
        vec![(1, "Old", "dir:/mnt/share/Music/Bootleg", None), (2, "New", "dir:Bootleg", None)]
    );
}
