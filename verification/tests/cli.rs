//! What the command line prints and understands.

use albumplayer::artwork;
use albumplayer::cli::{
    album_page, albums_listing, artists_listing, artwork_lines, default_db_path, doctor_lines, explain, fmt_duration,
    line_up, log_count, log_line, opening_commands, play_ids, read_control, replaygain_lines, report, scan_lines,
    shuffle_by, shuffle_in_place, since, sort_for, stats_lines, top_lines, unknown_command, Control, Line, Loaded,
    CONTROLS,
};
use albumplayer::model::{AlbumRow, ArtistRow, LibraryStats, TrackRow};
use albumplayer::path::FilePath;
use albumplayer::player::{Command, PlayState, PlayerEvent};
use albumplayer::query::{AlbumSort, Anomaly};
use albumplayer::queue::Repeat;
use albumplayer::replaygain;
use albumplayer::scan::ScanReport;

fn album(id: i64, title: &str) -> AlbumRow {
    AlbumRow {
        id,
        title: title.into(),
        album_artist: "Radiohead".into(),
        year: Some(2000),
        track_count: 10,
        disc_count: 1,
        duration_ms: 2_999_000,
        is_compilation: false,
        dir_path: "/m/Kid A".into(),
        source_dirs: 1,
        play_count: 0,
        last_played: None,
    }
}

fn track(id: i64, disc_no: i64, track_no: i64) -> TrackRow {
    TrackRow {
        id,
        disc_no,
        track_no,
        title: format!("Song {id}"),
        artist: "Radiohead".into(),
        duration_ms: 61_000,
        codec: None,
        path: format!("/m/{id}.mp3"),
        play_count: 0,
    }
}

#[test]
fn durations_render_readably() {
    assert_eq!(fmt_duration(0), "0:00");
    assert_eq!(fmt_duration(45_000), "0:45");
    assert_eq!(fmt_duration(213_000), "3:33");
    assert_eq!(fmt_duration(3_723_000), "1:02:03");
}

#[test]
fn durations_round_toward_zero() {
    assert_eq!(fmt_duration(1_999), "0:01");
    assert_eq!(fmt_duration(-500), "0:00");
    assert_eq!(fmt_duration(-65_000), "-1:-5");
    assert_eq!(fmt_duration(i64::MAX), "2562047788015:12:55");
    assert_eq!(fmt_duration(i64::MIN), "-12:-55");
}

#[test]
fn the_database_stands_in_the_data_directory() {
    let some = |s: &str| Some(s.to_string());
    assert_eq!(default_db_path(some("/d"), some("/h")).unwrap().to_text(), "/d/albumplayer/library.db");
    assert_eq!(
        default_db_path(None, some("/h")).unwrap().to_text(),
        "/h/.local/share/albumplayer/library.db"
    );
    assert_eq!(
        default_db_path(None, None).unwrap_err(),
        "neither XDG_DATA_HOME nor HOME is set; pass --db"
    );
}

#[test]
fn unknown_sorts_are_explained() {
    assert_eq!(sort_for("plays"), Ok(AlbumSort::Plays));
    assert_eq!(sort_for("size").unwrap_err(), "unknown sort 'size' (artist|title|year|plays|added|last)");
}

#[test]
fn albums_are_listed_in_columns() {
    assert_eq!(albums_listing(&vec![]), vec!["No albums. Run `albumplayer scan <DIR>` first."]);
    let mut second = album(12, &"x".repeat(50));
    second.year = None;
    second.disc_count = 2;
    second.play_count = 3;
    let lines = albums_listing(&vec![album(7, "Kid A"), second]);
    assert_eq!(
        lines[0],
        format!("     7  2000  {:<28}  {:<40}  10tr  49:59", "Radiohead", "Kid A")
    );
    assert_eq!(
        lines[1],
        format!("    12  ----  {:<28}  {}  10tr  49:59 [2CD]  ▸3", "Radiohead", "x".repeat(40))
    );
    assert_eq!(&lines[2..], ["", "2 albums"]);
}

#[test]
fn artists_are_listed_in_columns() {
    assert_eq!(artists_listing(&vec![]), vec!["No artists yet."]);
    let row = ArtistRow { id: 1, name: "Beck".into(), album_count: 3, track_plays: 40, album_plays: 5, last_played: None };
    let lines = artists_listing(&vec![row]);
    assert_eq!(lines[0], format!("{:<40} {:>7} {:>12} {:>12}", "ARTIST", "ALBUMS", "ALBUM PLAYS", "TRACK PLAYS"));
    assert_eq!(lines[1], format!("{:<40} {:>7} {:>12} {:>12}", "Beck", 3, 5, 40));
}

#[test]
fn an_album_page_heads_each_disc() {
    let mut row = album(7, "Kid A");
    row.disc_count = 2;
    row.is_compilation = true;
    let tracks = vec![track(1, 1, 1), track(2, 1, 2), track(3, 2, 1)];
    let lines = album_page(&row, &tracks, Some("/c/7.jpg".into()), Some("-7.8 dB".into()));
    assert_eq!(
        lines,
        vec![
            "Radiohead — Kid A (2000)".to_string(),
            "/m/Kid A".to_string(),
            "cover: /c/7.jpg".to_string(),
            "replaygain: -7.8 dB".to_string(),
            "10 tracks, 49:59, 2 discs, compilation".to_string(),
            "".to_string(),
            "  Disc 1".to_string(),
            format!("    1. {:<44}    1:01  Radiohead", "Song 1"),
            format!("    2. {:<44}    1:01  Radiohead", "Song 2"),
            "  Disc 2".to_string(),
            format!("    1. {:<44}    1:01  Radiohead", "Song 3"),
        ]
    );
    let plain = album_page(&album(7, "Kid A"), &vec![], None, None);
    assert_eq!(plain, vec!["Radiohead — Kid A (2000)", "/m/Kid A", "10 tracks, 49:59", ""]);
}

#[test]
fn totals_mention_what_is_missing_only_when_something_is() {
    let mut stats = LibraryStats {
        albums: 3,
        artists: 2,
        tracks: 30,
        total_duration_ms: 3_600_000,
        compilations: 1,
        missing_albums: 0,
        missing_tracks: 0,
        album_plays: 4,
        track_plays: 50,
    };
    let lines = stats_lines(&stats, 2, 1);
    assert_eq!(lines[0], "Albums         3");
    assert_eq!(lines[4], "Total time     1:00:00");
    assert_eq!(lines[8], "Cover art      2 of 3 albums");
    assert_eq!(lines[9], "ReplayGain     1 of 3 albums");
    assert_eq!(lines.len(), 10);
    stats.missing_tracks = 7;
    let lines = stats_lines(&stats, 2, 1);
    assert_eq!(lines[11], "No longer on disk: 0 albums, 7 tracks (history retained)");
}

#[test]
fn a_scan_is_summed_up() {
    let mut r = ScanReport::default();
    r.files_seen = 10;
    r.files_parsed = 3;
    r.files_cached = 1;
    r.files_failed = 6;
    r.albums = 2;
    r.albums_new = 1;
    r.albums_gone = 4;
    r.absences_skipped = true;
    for i in 0..6 {
        r.errors.push((FilePath::parse(&format!("/m/{i}.mp3")), "bad".into()));
    }
    let lines = scan_lines(&r, "1.5", false);
    assert_eq!(lines[0], "Scanned 10 files in 1.5s  (3 parsed, 1 unchanged, 6 failed)");
    assert_eq!(lines[1], "2 albums (1 new), 4 no longer on disk");
    assert_eq!(lines[3], "⚠ 6 of 10 files could not be read, so nothing was marked as missing.");
    assert_eq!(lines[7], "Unreadable files:");
    assert_eq!(lines[8], "  /m/0.mp3: bad");
    assert_eq!(lines[13], "  … and more; rerun with --verbose");
    assert_eq!(
        lines.last().unwrap(),
        "Run `albumplayer doctor` to review how these resolved into albums."
    );
    assert_eq!(scan_lines(&r, "1.5", true).len(), lines.len(), "the sixth file in place of the hint");
    let clean = scan_lines(&ScanReport::default(), "0.0", false);
    assert_eq!(clean.len(), 4);
    assert_eq!(clean[1], "0 albums (0 new)");
}

fn anomaly(kind: &'static str, detail: &str) -> Anomaly {
    Anomaly { kind, detail: detail.into(), album_id: None }
}

#[test]
fn problems_are_grouped_by_kind() {
    assert_eq!(doctor_lines(&vec![], None, 10), vec!["No tagging problems found."]);
    let found = vec![anomaly("mixed-codecs", "a"), anomaly("no-cover-art", "b"), anomaly("mixed-codecs", "c")];
    assert_eq!(
        doctor_lines(&found, None, 1),
        vec![
            "",
            "mixed-codecs  (2)",
            "  one album spans several formats, which can disturb gapless playback",
            "  a",
            "  … 1 more",
            "",
            "no-cover-art  (1)",
            "  no cover image found in the album folder",
            "  b",
        ]
    );
    assert_eq!(doctor_lines(&found, Some("no-cover-art".into()), 10).len(), 4);
    assert_eq!(explain("something-else"), "");
}

#[test]
fn a_listen_can_be_logged_by_hand() {
    assert_eq!(log_count(3, 10, None), Ok(10));
    assert_eq!(log_count(3, 10, Some(4)), Ok(4));
    assert_eq!(log_count(3, 10, Some(40)), Ok(10));
    assert_eq!(log_count(3, 0, None).unwrap_err(), "album 3 has no tracks on disk");
    assert_eq!(log_line(4, 10, false), "Logged 4 of 10 tracks — album play not counted");
    assert_eq!(log_line(10, 10, true), "Logged 10 of 10 tracks — album play counted");
}

#[test]
fn there_must_be_something_to_play() {
    assert_eq!(play_ids(false, vec![3, 1], vec![9]), Ok(vec![3, 1]));
    assert_eq!(play_ids(true, vec![], vec![9]), Ok(vec![9]));
    assert_eq!(play_ids(false, vec![], vec![9]).unwrap_err(), "nothing to play: give album IDs or --all");
}

#[test]
fn shuffling_keeps_every_album() {
    let all: Vec<i64> = (1..=12).collect();
    let mut dealt = all.clone();
    shuffle_by(&mut dealt, Some(12345));
    assert_ne!(dealt, all);
    let mut again = all.clone();
    shuffle_by(&mut again, Some(12345));
    assert_eq!(again, dealt, "the clock decides");
    let mut by_clock = all.clone();
    shuffle_in_place(&mut by_clock);
    for mut order in [dealt, by_clock] {
        order.sort_unstable();
        assert_eq!(order, all);
    }
    let mut none: Vec<i64> = vec![];
    shuffle_by(&mut none, None);
    assert!(none.is_empty());
}

#[test]
fn albums_without_tracks_are_left_out_of_the_queue() {
    let loaded = vec![
        Loaded { album: album(1, "Empty"), tracks: vec![], gain: None, peak: None },
        Loaded { album: album(2, "Full"), tracks: vec![track(1, 1, 1)], gain: None, peak: None },
    ];
    let (albums, lines) = line_up(&loaded);
    assert_eq!(albums.len(), 1);
    assert_eq!(albums[0].id, 2);
    assert_eq!(lines, vec!["skipping Empty: no playable tracks"]);
}

#[test]
fn playing_starts_with_the_first_album() {
    let albums = |n: i64| {
        let loaded: Vec<Loaded> = (1..=n)
            .map(|i| Loaded { album: album(i, "T"), tracks: vec![track(i, 1, 1)], gain: None, peak: None })
            .collect();
        line_up(&loaded).0
    };
    let commands = opening_commands(albums(2), true, Some("album")).ok().unwrap();
    assert!(matches!(commands[0], Command::SetShuffle(true)));
    assert!(matches!(commands[1], Command::SetRepeat(Repeat::Album)));
    assert!(matches!(&commands[2], Command::PlayAlbum(a) if a.id == 1));
    assert!(matches!(&commands[3], Command::Enqueue(a) if a.id == 2));
    assert_eq!(commands.len(), 4);
    assert_eq!(
        opening_commands(albums(1), false, Some("forever")).err().unwrap(),
        "unknown repeat mode 'forever' (album|queue)"
    );
    assert_eq!(
        opening_commands(albums(0), false, None).err().unwrap(),
        "none of those albums have playable tracks"
    );
}

#[test]
fn keys_stand_for_commands() {
    assert!(matches!(read_control("\n"), Control::Send(Command::NextTrack)));
    assert!(matches!(read_control(" n \n"), Control::Send(Command::NextTrack)));
    assert!(matches!(read_control("a"), Control::Send(Command::NextAlbum)));
    assert!(matches!(read_control("b"), Control::Send(Command::PrevTrack)));
    assert!(matches!(read_control("B"), Control::Send(Command::PrevAlbum)));
    assert!(matches!(read_control("p"), Control::Send(Command::TogglePause)));
    assert!(matches!(read_control("s"), Control::ToggleShuffle));
    assert!(matches!(read_control("q"), Control::Quit));
    assert!(matches!(read_control("what?\n"), Control::Unknown(w) if w == "what?"));
    assert_eq!(unknown_command("x"), format!("   unknown command 'x'\n{CONTROLS}"));
}

#[test]
fn events_are_reported_in_a_line() {
    assert_eq!(
        report(&PlayerEvent::AlbumStarted { album_id: 1, title: "Kid A".into() }),
        Some(Line::Out("\n▶ Kid A".into()))
    );
    assert_eq!(
        report(&PlayerEvent::TrackStarted { album_id: 1, track_id: 2, title: "Idioteque".into() }),
        Some(Line::Out("   Idioteque".into()))
    );
    assert_eq!(report(&PlayerEvent::QueueFinished), Some(Line::Out("\nQueue finished.".into())));
    assert_eq!(report(&PlayerEvent::Error("bad".into())), Some(Line::Problem("   ! bad".into())));
    assert_eq!(report(&PlayerEvent::StateChanged(PlayState::Paused)), None);
    assert_eq!(report(&PlayerEvent::TrackFinished { album_id: 1, track_id: 2, ms_played: 3 }), None);
}

#[test]
fn runs_are_summed_up_with_their_first_problems() {
    let mut r = replaygain::Report::new(12);
    for i in 0..12 {
        r.note(&format!("album {i}"), replaygain::Outcome::Failed("bad".into()));
    }
    let lines = replaygain_lines(&r, "3");
    assert_eq!(lines[0], "12 albums considered, 0 measured, 0 silent, 12 failed in 3s");
    assert_eq!(lines[1], "  album 0: bad");
    assert_eq!(lines.len(), 11);
    let mut r = artwork::Report::new(2);
    r.note("x".into(), artwork::Outcome::Fetched);
    assert_eq!(artwork_lines(&r, "9"), vec!["2 albums considered, 1 covers fetched, 0 not found, 0 failed in 9s"]);
}

#[test]
fn the_most_played_are_listed() {
    let albums = vec![("Beck".to_string(), "Odelay".to_string(), 12)];
    let lines = top_lines(&albums, &vec![("Beck".to_string(), 12, 130)], Some(30));
    assert_eq!(
        lines,
        vec![
            "Top albums (last 30 days)",
            "    12  Beck — Odelay",
            "",
            "Top artists (last 30 days)",
            "    12 albums,   130 tracks  Beck",
        ]
    );
    assert_eq!(
        top_lines(&vec![], &vec![], None),
        vec!["Top albums", "  nothing played yet", "", "Top artists", "  nothing played yet"]
    );
    assert_eq!(since(1_000_000, Some(2)), Some(1_000_000 - 172_800));
    assert_eq!(since(1_000_000, None), None);
}
