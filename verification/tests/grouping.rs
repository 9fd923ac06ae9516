//! How files come together as albums.

use albumplayer::error::Error;
use albumplayer::group::{find_cover, group_into_albums, looks_truncated, same_artist, Listing};
use albumplayer::model::{AlbumDraft, IdentitySource, Real, TrackMeta};
use albumplayer::path::FilePath;
use albumplayer::persist::{
    album_row, artist_record, durations_in_range, persist, track_row, AlbumKept, Enrichment, TrackKept,
};
use albumplayer::scan::{
    clears_present, gain_number, has_audio_extension, is_hidden, is_unreliable, read_metadata, read_tags, scan_library, still_fresh,
    RawTags, ReadOutcome, ScanReport,
};
use albumplayer::util::{disc_no_from_path, strip_disc_suffix};

/// Group files whose folders hold nothing else.
fn group(metas: Vec<TrackMeta>, roots: &[FilePath]) -> Vec<AlbumDraft> {
    group_into_albums(metas, roots, &[])
}

fn meta(path: &str, album: Option<&str>, artist: Option<&str>, aa: Option<&str>) -> TrackMeta {
    TrackMeta {
        path: FilePath::parse(path),
        mtime: 0,
        size: 0,
        title: Some("t".into()),
        artist_raw: artist.map(str::to_string),
        album_artist_raw: aa.map(str::to_string),
        album_raw: album.map(str::to_string),
        mb_album_id: None,
        compilation: false,
        disc_no: 1,
        track_no: 1,
        year: Some(1999),
        duration_ms: 1000,
        codec: None,
        bitrate: None,
        sample_rate: None,
        rg_track_gain: None,
        rg_track_peak: None,
        rg_album_gain: None,
        rg_album_peak: None,
    }
}

#[test]
fn multi_disc_release_stays_one_album() {
    let metas = vec![
        meta("/m/PF/The Wall/CD1/01.mp3", Some("The Wall"), Some("Pink Floyd"), None),
        meta("/m/PF/The Wall/CD2/01.mp3", Some("The Wall"), Some("Pink Floyd"), None),
    ];
    let albums = group(metas, &[]);
    assert_eq!(albums.len(), 1);
    assert_eq!(albums[0].album_artist, "Pink Floyd");
}

#[test]
fn compilation_does_not_shatter_into_singles() {
    // No albumartist tag, every track a different artist: the classic case
    // that fragments naive scanners into one album per track.
    let metas = vec![
        meta("/m/Comp/01.mp3", Some("Now 42"), Some("Artist A"), None),
        meta("/m/Comp/02.mp3", Some("Now 42"), Some("Artist B"), None),
        meta("/m/Comp/03.mp3", Some("Now 42"), Some("Artist C"), None),
    ];
    let albums = group(metas, &[]);
    assert_eq!(albums.len(), 1);
    assert_eq!(albums[0].album_artist, "Various Artists");
    assert!(albums[0].is_compilation);
    assert_eq!(albums[0].tracks.len(), 3);
}

#[test]
fn tagged_album_artist_wins_over_track_artists() {
    let metas = vec![
        meta("/m/X/01.mp3", Some("Duets"), Some("Guest One"), Some("Frank Sinatra")),
        meta("/m/X/02.mp3", Some("Duets"), Some("Guest Two"), Some("Frank Sinatra")),
    ];
    let albums = group(metas, &[]);
    assert_eq!(albums.len(), 1);
    assert_eq!(albums[0].album_artist, "Frank Sinatra");
    assert!(!albums[0].is_compilation);
}

#[test]
fn directory_identity_is_relative_to_the_library_root() {
    // The same album under two different mount points must keep one
    // identity, or moving the server into a container orphans it.
    let on_host = group(
        vec![meta("/mnt/share/Music/Bootleg/01.mp3", None, None, None)],
        &[FilePath::parse("/mnt/share/Music")],
    );
    let in_container = group(
        vec![meta("/music/Bootleg/01.mp3", None, None, None)],
        &[FilePath::parse("/music")],
    );
    assert_eq!(on_host[0].group_key, in_container[0].group_key);
    assert_eq!(on_host[0].group_key, "dir:Bootleg");
}

#[test]
fn an_empty_root_contains_every_directory() {
    let roots = [FilePath::parse(""), FilePath::parse("/m")];
    let albums = group(vec![meta("/m/x/01.mp3", None, None, None)], &roots);
    assert_eq!(albums[0].group_key, "dir:/m/x");
}

#[test]
fn untagged_folder_groups_by_directory() {
    let metas = vec![
        meta("/m/Bootleg/01.mp3", None, None, None),
        meta("/m/Bootleg/02.mp3", None, None, None),
    ];
    let albums = group(metas, &[]);
    assert_eq!(albums.len(), 1);
    assert_eq!(albums[0].identity, IdentitySource::Directory);
    assert_eq!(albums[0].title, "Bootleg");
}

#[test]
fn distinct_albums_in_one_folder_split() {
    let metas = vec![
        meta("/m/Singles/a.mp3", Some("Album One"), Some("A"), None),
        meta("/m/Singles/b.mp3", Some("Album Two"), Some("B"), None),
    ];
    assert_eq!(group(metas, &[]).len(), 2);
}

#[test]
fn identity_survives_a_directory_rename() {
    let before = group(
        vec![meta("/m/old-name/01.mp3", Some("Kid A"), Some("Radiohead"), None)],
        &[],
    );
    let after = group(
        vec![meta(
            "/m/Radiohead - Kid A (2000)/01.mp3",
            Some("Kid A"),
            Some("Radiohead"),
            None,
        )],
        &[],
    );
    assert_eq!(before[0].group_key, after[0].group_key);
    assert_eq!(before[0].identity, IdentitySource::ArtistTitle);
}

/// Build metadata for a file in a disc subdirectory with no disc tag —
/// the White Album case, which is the single most common multi-disc layout.
fn disc_meta(path: &str, album: &str, track_no: u32) -> TrackMeta {
    let mut m = meta(path, Some(album), Some("The Beatles"), None);
    m.track_no = track_no;
    m.disc_no = disc_no_from_path(&FilePath::parse(path))
        .or_else(|| strip_disc_suffix(album).1)
        .unwrap_or(1);
    m
}

#[test]
fn disc_folders_supply_missing_disc_numbers() {
    // Both discs tag their tracks 1..n with no disc tag at all. Without the
    // folder fallback every track collides on disc 1 and album order is lost.
    let metas = vec![
        disc_meta("/m/Beatles/White Album/Disc 1/a.mp3", "The White Album", 1),
        disc_meta("/m/Beatles/White Album/Disc 1/b.mp3", "The White Album", 2),
        disc_meta("/m/Beatles/White Album/Disc 2/c.mp3", "The White Album", 1),
        disc_meta("/m/Beatles/White Album/Disc 2/d.mp3", "The White Album", 2),
    ];
    let albums = group(metas, &[]);
    assert_eq!(albums.len(), 1);
    assert_eq!(albums[0].disc_count(), 2);

    // Every (disc, track) pair is now unique, so playback order is total.
    let mut pairs: Vec<(u32, u32)> =
        albums[0].tracks.iter().map(|t| (t.disc_no, t.track_no)).collect();
    pairs.sort_unstable();
    pairs.dedup();
    assert_eq!(pairs.len(), 4);
}

#[test]
fn disc_marker_in_the_album_title_does_not_split_the_release() {
    // The Forty Licks case: one release, but each disc carries a different
    // album tag, which previously produced two unrelated albums.
    let metas = vec![
        disc_meta("/m/Stones/40 Licks/CD 1/a.mp3", "Forty Licks (Disc One)", 1),
        disc_meta("/m/Stones/40 Licks/CD 2/b.mp3", "Forty Licks ( Disc 2 )", 1),
    ];
    let albums = group(metas, &[]);
    assert_eq!(albums.len(), 1);
    assert_eq!(albums[0].title, "Forty Licks");
    assert_eq!(albums[0].disc_count(), 2);
}

#[test]
fn sibling_folders_holding_one_release_are_merged() {
    // Mellon Collie: two discs in named folders, same album tag, no disc
    // tags. Bucketing is per-directory, so these must merge afterwards or
    // the album row records only one of the two discs.
    let mut metas = Vec::new();
    for (dir, n) in [("Dawn to Dusk", 1u32), ("Twilight to Starlight", 2)] {
        for track_no in 1..=3u32 {
            let mut m = meta(
                &format!("/m/SP/Mellon Collie - {dir}/{track_no}.mp3"),
                Some("Mellon Collie and the Infinite Sadness"),
                Some("The Smashing Pumpkins"),
                None,
            );
            m.track_no = track_no;
            let _ = n;
            metas.push(m);
        }
    }
    let albums = group(metas, &[]);
    assert_eq!(albums.len(), 1, "the two folders are one release");

    let album = &albums[0];
    assert_eq!(album.tracks.len(), 6, "no disc is dropped");
    assert_eq!(album.source_dirs, 2);
    // Folder order supplies the disc numbers the tags never had, so the
    // six tracks have a total order rather than two colliding runs of 1..3.
    assert_eq!(album.disc_count(), 2);
    let mut pairs: Vec<(u32, u32)> =
        album.tracks.iter().map(|t| (t.disc_no, t.track_no)).collect();
    pairs.sort_unstable();
    pairs.dedup();
    assert_eq!(pairs.len(), 6);
    // dir_path becomes the folder that contains both discs.
    assert_eq!(album.dir_path, FilePath::parse("/m/SP"));
}

#[test]
fn a_truncated_artist_does_not_invent_a_compilation() {
    let full = "The Presidents of the United States of America";
    let cut = "The Presidents of the United S";
    assert!(same_artist(full, cut));
    // But a genuinely different, longer credit stays distinct.
    assert!(!same_artist("Bob Dylan", "Bob Dylan & The Band"));
    assert!(!same_artist("Beck", "Beck Hansen"));
}

#[test]
fn a_stray_id3v1_track_rejoins_its_album() {
    // One file in the folder has only an ID3v1 tag, so its album title is
    // cut to 30 characters; the rest carry the full ID3v2 title.
    let full = "The Presidents of the United States of America (10th Anniversary Edition)";
    let truncated = "The Presidents of the United S";
    assert_eq!(truncated.len(), 30);

    let mut metas = vec![meta("/m/P/10th/kitty.mp3", Some(truncated), Some("P"), None)];
    for i in 1..=3 {
        metas.push(meta(&format!("/m/P/10th/{i}.mp3"), Some(full), Some("P"), None));
    }

    let albums = group(metas, &[]);
    assert_eq!(albums.len(), 1, "the stray track is not its own album");
    assert_eq!(albums[0].tracks.len(), 4);
    assert_eq!(albums[0].title, full, "the complete title wins");
    assert!(!albums[0].is_compilation, "one artist, not a compilation");
}

#[test]
fn folding_only_happens_inside_one_folder() {
    // Same prefix, different folders: these are separate releases.
    let truncated = "The End Is The Beginning Is Th";
    let metas = vec![
        meta("/m/SP/single/01.mp3", Some(truncated), Some("SP"), None),
        meta(
            "/m/SP/remixes/01.mp3",
            Some("The End Is The Beginning Is The End (Remixes)"),
            Some("SP"),
            None,
        ),
    ];
    assert_eq!(group(metas, &[]).len(), 2);
}

#[test]
fn titles_cut_off_by_id3v1_do_not_fuse_different_releases() {
    // Both folders carry the same 30-character title because ID3v1 truncated
    // it; they are actually a single and its remix EP.
    let title = "The End Is The Beginning Is Th";
    assert_eq!(title.len(), 30, "fixture must sit on the ID3v1 limit");

    let metas = vec![
        meta("/m/SP/The End Is The Beginning/01.mp3", Some(title), Some("SP"), None),
        meta("/m/SP/The End Is The Beginning Remi/01.mp3", Some(title), Some("SP"), None),
    ];
    let albums = group(metas, &[]);
    assert_eq!(albums.len(), 2, "a truncated title is not enough to merge on");
}

#[test]
fn truncated_title_identities_are_also_mount_independent() {
    // These keys carry a directory suffix to keep unrelated releases apart;
    // that suffix must be relative too, or moving the library orphans them.
    let title = "The End Is The Beginning Is Th";
    let on_host = group(
        vec![meta("/mnt/share/Music/SP/EP/01.mp3", Some(title), Some("SP"), None)],
        &[FilePath::parse("/mnt/share/Music")],
    );
    let in_container = group(
        vec![meta("/music/SP/EP/01.mp3", Some(title), Some("SP"), None)],
        &[FilePath::parse("/music")],
    );
    assert_eq!(on_host[0].group_key, in_container[0].group_key);
    assert!(on_host[0].group_key.ends_with("|dir:SP/EP"), "{}", on_host[0].group_key);
}

#[test]
fn full_length_titles_still_merge_across_folders() {
    let title = "Mellon Collie and the Infinite Sadness";
    assert!(title.len() > 30);
    let metas = vec![
        meta("/m/SP/MC - Dawn/01.mp3", Some(title), Some("SP"), None),
        meta("/m/SP/MC - Twilight/01.mp3", Some(title), Some("SP"), None),
    ];
    assert_eq!(group(metas, &[]).len(), 1);
}

#[test]
fn a_credit_shared_by_many_folders_splits_into_one_album_per_folder() {
    // The Mozart case: the album tag holds a performer credit, repeated
    // across a box set of separate works, one work per folder.
    let works = [
        "01 - Symphony 1 in E Flat Major k.16",
        "02 - Symphony 2 in B Flat Major k.17",
        "03 - Symphony 3 in E Flat Major k.18",
        "04 - Symphony 4 in D Major k.19",
        "05 - Symphony 5 in B Flat Major k.22",
    ];
    let metas: Vec<TrackMeta> = works
        .iter()
        .map(|w| {
            meta(
                &format!("/m/Mozart/{w}/01.mp3"),
                Some("NCO, Nicholas Ward"),
                Some("Mozart"),
                None,
            )
        })
        .collect();

    let albums = group(metas, &[]);
    assert_eq!(albums.len(), works.len(), "one album per work, not one box");
    // Each is named for its folder, since the album tag was never a title.
    let mut titles: Vec<&str> = albums.iter().map(|a| a.title.as_str()).collect();
    titles.sort_unstable();
    assert_eq!(titles, works);
    assert!(albums.iter().all(|a| a.identity == IdentitySource::Directory));
}

#[test]
fn an_ordinary_double_album_is_still_merged() {
    // Two folders stays under the limit, so the Mellon Collie case is
    // unaffected by the box-set split.
    let metas = vec![
        meta("/m/SP/MC - Dawn/01.mp3", Some("Mellon Collie"), Some("SP"), None),
        meta("/m/SP/MC - Twilight/01.mp3", Some("Mellon Collie"), Some("SP"), None),
    ];
    assert_eq!(group(metas, &[]).len(), 1);
}

#[test]
fn merging_leaves_genuinely_distinct_albums_alone() {
    let metas = vec![
        meta("/m/A/One/01.mp3", Some("One"), Some("A"), None),
        meta("/m/A/Two/01.mp3", Some("Two"), Some("A"), None),
    ];
    let albums = group(metas, &[]);
    assert_eq!(albums.len(), 2);
    assert!(albums.iter().all(|a| a.source_dirs == 1));
}

#[test]
fn untagged_files_take_their_artist_from_the_folder() {
    // Miles Davis / ESP: no tags whatsoever, artist only in the path.
    let root = FilePath::parse("/m");
    let mut m = meta("/m/Miles Davis/ESP/01.mp3", None, None, None);
    m.year = None;
    let albums = group(vec![m], std::slice::from_ref(&root));
    assert_eq!(albums[0].album_artist, "Miles Davis");
    assert_eq!(albums[0].title, "ESP");
}

#[test]
fn an_album_sitting_in_the_root_does_not_borrow_the_roots_name() {
    let root = FilePath::parse("/m");
    let m = meta("/m/Zelda 25th Anniversary/01.mp3", None, None, None);
    let albums = group(vec![m], std::slice::from_ref(&root));
    assert_eq!(albums[0].album_artist, "Unknown Artist");
}

#[test]
fn moving_the_library_keeps_every_album() {
    let library = |root: &str| -> Vec<AlbumDraft> {
        let at = |rel: &str| format!("{root}/{rel}");
        let mut metas = vec![
            meta(&at("Bootleg/01.mp3"), None, None, None),
            meta(&at("Adele/Live/02.mp3"), None, None, None),
            meta(&at("Pink Floyd/The Wall/CD2/01.mp3"), Some("The Wall"), Some("Pink Floyd"), None),
            meta(&at("Pink Floyd/The Wall/CD1/01.mp3"), Some("The Wall"), Some("Pink Floyd"), None),
            meta(&at("Muse/Hullabaloo CD1/01.mp3"), Some("Hullabaloo"), Some("Muse"), None),
            meta(&at("Muse/Hullabaloo CD2/01.mp3"), Some("Hullabaloo"), Some("Muse"), None),
        ];
        for i in 0..5 {
            let path = at(&format!("Karajan/Work {i}/01.mp3"));
            metas.push(meta(&path, Some("Karajan"), Some("Karajan"), None));
        }
        group(metas, &[FilePath::parse(root)])
    };
    let before = library("/srv/Music");
    let after = library("/mnt/nas/share/tunes");
    assert_eq!(before.len(), 9);
    assert_eq!(after.len(), before.len());
    for (was, is) in before.iter().zip(after.iter()) {
        assert_eq!(is.group_key, was.group_key);
        assert_eq!(is.identity, was.identity);
        assert_eq!(is.title, was.title);
        assert_eq!(is.album_artist, was.album_artist);
        assert_eq!(is.year, was.year);
        assert_eq!(is.source_dirs, was.source_dirs);
        assert_eq!(is.tracks.len(), was.tracks.len());
        assert!(!is.tracks.is_empty());
    }
}

#[test]
fn an_unreliable_scan_does_not_mark_anything_missing() {
    // A flaky share: this pass could not read any of the files. They must not be
    // declared gone.
    let outcomes = (1..=4)
        .map(|i| ReadOutcome::Failed(FilePath::parse(&format!("/m/Album/{i}.mp3")), "unreadable".into()))
        .collect();
    let mut report = ScanReport { files_seen: 4, ..ScanReport::default() };
    let metas = read_metadata(outcomes, &mut report);

    assert!(metas.is_empty());
    assert_eq!(report.files_seen, 4);
    assert_eq!(report.files_failed, 4, "the stub files are unreadable");
    assert!(
        is_unreliable(report.files_failed, report.files_seen),
        "a 100% failure rate is not trustworthy"
    );
    assert!(!clears_present(report.files_failed, report.files_seen));
    assert_eq!(report.tracks_gone, 0, "nothing was declared missing");
}

#[test]
fn a_clean_scan_still_reports_absences() {
    let mut report = ScanReport::default();
    let metas = read_metadata(Vec::new(), &mut report);

    // An empty directory has nothing to fail on, so absence still applies.
    assert!(metas.is_empty());
    assert_eq!(report.files_seen, 0);
    assert!(!is_unreliable(report.files_failed, report.files_seen));
    assert!(clears_present(report.files_failed, report.files_seen));
}

#[test]
fn five_in_a_hundred_failures_are_tolerated() {
    assert!(!is_unreliable(5, 100));
    assert!(is_unreliable(6, 100));
    assert!(is_unreliable(1, 19));
    assert!(!is_unreliable(1, 20));
    assert!(clears_present(5, 100));
    assert!(!clears_present(6, 100));
}

#[test]
fn every_outcome_is_tallied() {
    let mut outcomes = vec![
        ReadOutcome::Cached(meta("/m/a.mp3", None, None, None)),
        ReadOutcome::Parsed(meta("/m/b.mp3", None, None, None)),
    ];
    for i in 0..60 {
        outcomes.push(ReadOutcome::Failed(FilePath::parse(&format!("/m/{i}.mp3")), format!("{i}")));
    }
    let mut report = ScanReport::default();
    let metas = read_metadata(outcomes, &mut report);
    assert_eq!(metas.len(), 2);
    assert_eq!((report.files_cached, report.files_parsed, report.files_failed), (1, 1, 60));
    assert_eq!(report.errors.len(), 50, "the list of failures is capped");
    assert_eq!(report.errors[49].1, "49");
}

#[test]
fn audio_files_are_known_by_their_extension() {
    assert!(has_audio_extension(&FilePath::parse("/m/a.MP3")));
    assert!(has_audio_extension(&FilePath::parse("/m/a.b.flac")));
    assert!(!has_audio_extension(&FilePath::parse("/m/cover.jpg")));
    assert!(!has_audio_extension(&FilePath::parse("/m/mp3")));
    assert!(is_hidden(&FilePath::parse("/m/.trash")));
    assert!(!is_hidden(&FilePath::parse("/m/a.mp3")));
}

fn raw() -> RawTags {
    RawTags {
        title: None,
        artist: None,
        album_artist: None,
        album: None,
        mb_release_id: None,
        compilation: None,
        disc: None,
        disc_text: None,
        track: None,
        track_text: None,
        recording_date: None,
        year: None,
        release_date: None,
        duration_ms: 1000,
        format: "Mpeg".into(),
        audio_bitrate: None,
        overall_bitrate: None,
        sample_rate: None,
        rg_track_gain: None,
        rg_track_peak: None,
        rg_album_gain: None,
        rg_album_peak: None,
    }
}

#[test]
fn tags_are_cleaned_as_they_are_read() {
    let tags = RawTags {
        title: Some("  Airbag ".into()),
        artist: Some("   ".into()),
        album: Some("OK Computer".into()),
        compilation: Some("1".into()),
        disc_text: Some("2/3".into()),
        track_text: Some("07".into()),
        recording_date: Some("1997-05-21".into()),
        overall_bitrate: Some(320),
        ..raw()
    };
    let m = read_tags(FilePath::parse("/m/OK/07.mp3"), 5, 6, &tags);
    assert_eq!(m.title.as_deref(), Some("Airbag"));
    assert_eq!(m.artist_raw, None, "white space is not an artist");
    assert!(m.compilation);
    assert_eq!((m.disc_no, m.track_no), (2, 7));
    assert_eq!(m.year, Some(1997));
    assert_eq!(m.bitrate, Some(320));
    assert_eq!((m.mtime, m.size, m.duration_ms), (5, 6, 1000));
    assert!(still_fresh(&m, 5, 6));
    assert!(!still_fresh(&m, 5, 7));
    assert!(!still_fresh(&m, 4, 6));
}

#[test]
fn the_disc_folder_fills_in_for_the_disc_tag() {
    let m = read_tags(FilePath::parse("/m/White Album/Disc 2/01.mp3"), 0, 0, &raw());
    assert_eq!(m.disc_no, 2);
    let tagged = RawTags { album: Some("Forty Licks (Disc Two)".into()), ..raw() };
    assert_eq!(read_tags(FilePath::parse("/m/x/01.mp3"), 0, 0, &tagged).disc_no, 2);
    assert_eq!(read_tags(FilePath::parse("/m/x/01.mp3"), 0, 0, &raw()).disc_no, 1);
}

#[test]
fn gains_are_read_without_their_unit() {
    assert_eq!(gain_number(&Some(" -7.80 dB ".into())).as_deref(), Some("-7.80"));
    assert_eq!(gain_number(&Some("   ".into())), None);
    assert_eq!(gain_number(&None), None);
}

#[test]
fn scanning_needs_a_root() {
    assert_eq!(scan_library(Vec::new()), Err(Error::NoRoots));
    assert_eq!(
        scan_library(vec!["/a".into(), "/b".into()]).unwrap(),
        vec![FilePath::parse("/a"), FilePath::parse("/b")]
    );
}

#[test]
fn a_named_cover_outranks_other_images() {
    let dir = FilePath::parse("/m/A");
    let listings = [Listing {
        dir: FilePath::parse("/m/A"),
        files: vec![
            FilePath::parse("/m/A/back.png"),
            FilePath::parse("/m/A/Cover.JPG"),
            FilePath::parse("/m/A/01.mp3"),
        ],
    }];
    assert_eq!(find_cover(&dir, &listings), Some(FilePath::parse("/m/A/Cover.JPG")));
    assert_eq!(find_cover(&FilePath::parse("/m/B"), &listings), None);
}

#[test]
fn titles_of_the_old_tag_length_look_truncated() {
    assert!(looks_truncated("The End Is The Beginning Is Th"));
    assert!(!looks_truncated("Kid A"));
}

#[test]
fn albums_come_out_in_shelf_order_and_tracks_in_play_order() {
    let mut b2 = meta("/m/B/2.mp3", Some("Beta"), Some("The B"), None);
    b2.track_no = 2;
    let b1 = meta("/m/B/1.mp3", Some("Beta"), Some("The B"), None);
    let a1 = meta("/m/A/1.mp3", Some("Alpha"), Some("A"), None);
    let albums = group(vec![b2, b1, a1], &[]);
    let titles: Vec<&str> = albums.iter().map(|a| a.title.as_str()).collect();
    assert_eq!(titles, vec!["Alpha", "Beta"]);
    let order: Vec<u32> = albums[1].tracks.iter().map(|t| t.track_no).collect();
    assert_eq!(order, vec![1, 2]);
}

#[test]
fn drafts_are_written_as_rows() {
    let albums = group(
        vec![meta("/m/PF/The Wall/CD1/01.mp3", Some("The Wall"), Some("Pink Floyd"), None)],
        &[],
    );
    assert!(durations_in_range(&albums[0].tracks));
    let rows = persist(&albums, 77);
    assert_eq!(rows.len(), 1);
    assert_eq!(rows[0].artist.name, "Pink Floyd");
    assert_eq!(rows[0].album.sort_title, "wall");
    assert_eq!(rows[0].album.dir_path, "/m/PF/The Wall");
    assert_eq!((rows[0].album.track_count, rows[0].album.duration_ms), (1, 1000));
    assert_eq!(rows[0].album.seen_at, 77);
    assert_eq!(rows[0].tracks[0].track.path, "/m/PF/The Wall/CD1/01.mp3");
    assert_eq!(artist_record("  ").name, "Unknown Artist");
    assert_eq!(artist_record(" The Who ").sort_name, "who");
}

#[test]
fn a_rescan_keeps_what_hangs_on_an_album() {
    let albums = group(
        vec![meta("/m/PF/The Wall/CD1/01.mp3", Some("The Wall"), Some("Pink Floyd"), None)],
        &[],
    );
    let mut first = persist(&albums, 77);
    let new = album_row(None, first.remove(0).album);
    assert!(new.kept.id.is_none());
    assert!(new.present);
    assert_eq!(new.kept.added_at, 77);
    assert!(new.kept.enrichment.rg_gain_db.is_none());
    assert!(new.kept.enrichment.art_cache_path.is_none());

    let gain = Real { bits: (-6.5f64).to_bits() };
    let stored = AlbumKept {
        id: Some(12),
        added_at: 5,
        enrichment: Enrichment {
            rg_gain_db: Some(gain),
            rg_peak: None,
            rg_measured_at: Some(6),
            art_cache_path: Some("12.jpg".into()),
            art_checked_at: Some(7),
            art_mb_release_id: None,
        },
    };
    let mut again = persist(&albums, 99).remove(0);
    let row = album_row(Some(stored), again.album);
    assert_eq!((row.kept.id, row.kept.added_at), (Some(12), 5));
    assert_eq!(row.kept.enrichment.rg_gain_db, Some(gain));
    assert_eq!(row.kept.enrichment.rg_measured_at, Some(6));
    assert_eq!(row.kept.enrichment.art_cache_path.as_deref(), Some("12.jpg"));
    assert_eq!(row.kept.enrichment.art_checked_at, Some(7));
    assert!(row.present);
    assert_eq!(row.record.seen_at, 99);

    let track = track_row(Some(TrackKept { id: Some(3), added_at: 5 }), again.tracks.remove(0).track);
    assert_eq!((track.kept.id, track.kept.added_at), (Some(3), 5));
    assert!(track.present);
    let fresh = track_row(None, persist(&albums, 99).remove(0).tracks.remove(0).track);
    assert_eq!((fresh.kept.id, fresh.kept.added_at), (None, 99));
}

#[test]
fn durations_that_cannot_be_summed_are_noticed() {
    let mut a = meta("/m/a.mp3", None, None, None);
    a.duration_ms = i64::MAX;
    let b = meta("/m/b.mp3", None, None, None);
    assert!(!durations_in_range(&vec![a, b]));
}

#[test]
fn an_untitled_track_is_shown_by_its_file_name() {
    let mut m = meta("/m/A/01 - Intro.mp3", None, None, None);
    m.title = None;
    assert_eq!(m.display_title(), "01 - Intro");
    m.title = Some("Intro".into());
    assert_eq!(m.display_title(), "Intro");
}
