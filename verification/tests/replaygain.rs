//! Measuring album loudness.

use albumplayer::model::Real;
use albumplayer::path::FilePath;
use albumplayer::replaygain::{
    album_playlist, collect_pending, concat_playlist, no_loudness, parse_ebur128, totals, Options, Outcome, Pending,
    Reading, Report, ALL_ALBUMS, UNMEASURED_ALBUMS,
};

/// The loudness and the peak of a run in numbers, as every caller reads them.
fn measure(stderr: &str) -> Option<(f64, f64)> {
    let readings: Vec<Reading> = parse_ebur128(stderr)
        .iter()
        .map(|p| Reading {
            loudness: p
                .loudness
                .as_deref()
                .and_then(|t| t.parse::<f64>().ok())
                .map(|v| Real { bits: v.to_bits() }),
            peak: p
                .peaks
                .iter()
                .filter_map(|t| t.parse::<f64>().ok())
                .filter(|v| v.is_finite())
                .fold(None, |acc: Option<f64>, v| Some(acc.map_or(v, |a| a.max(v))))
                .map(|v| Real { bits: v.to_bits() }),
        })
        .collect();
    totals(&readings).map(|(loudness, peak)| {
        let dbfs = peak.map_or(0.0, |p| f64::from_bits(p.bits));
        (f64::from_bits(loudness.bits), 10f64.powf(dbfs / 20.0))
    })
}

#[test]
fn the_last_running_total_is_the_album_measurement() {
    // Two progress lines: the later one covers the whole album and must win.
    let stderr = "\
[Parsed_ebur128_2 @ 0x1] t: 100.0 TARGET:-23 LUFS M:-20.0 S:-20.0 I: -14.0 LUFS LRA: 5.0 LU FTPK: -1.0 -1.0 dBFS TPK: -1.0 -1.0 dBFS
[Parsed_ebur128_2 @ 0x1] t: 2999.8 TARGET:-23 LUFS M:-18.1 S:-43.5 I: -10.2 LUFS LRA: 7.1 LU FTPK: -inf -inf dBFS TPK:   0.7   0.9 dBFS
";
    let (loudness, peak) = measure(stderr).expect("parsed");
    assert!((loudness - -10.2).abs() < 0.001);
    // The louder of the two channels sets the peak.
    assert!((peak - 10f64.powf(0.9 / 20.0)).abs() < 0.001);
}

#[test]
fn the_per_frame_peak_field_is_not_mistaken_for_the_true_peak() {
    // FTPK contains the substring "TPK:" and often reads -inf; picking it up would
    // silently report a peak of zero.
    let line = "[Parsed_ebur128_2 @ 0x1] t: 10.0 I: -12.0 LUFS LRA: 3.0 LU                     FTPK:  -inf  -inf dBFS TPK:  -2.0  -1.5 dBFS\n";
    let (_, peak) = measure(line).expect("parsed");
    assert!(peak > 0.8, "peak came out as {peak}");
    assert!((peak - 10f64.powf(-1.5 / 20.0)).abs() < 0.001);
}

#[test]
fn output_without_a_measurement_is_rejected() {
    assert!(measure("").is_none());
    assert!(measure("ffmpeg: no such file").is_none());
}

#[test]
fn playlist_escapes_apostrophes() {
    // Filenames with apostrophes are common and would otherwise terminate the
    // quoted path early.
    let list = concat_playlist(&[FilePath::parse("/m/Guns n' Roses/01.mp3")]);
    assert_eq!(list, "file '/m/Guns n'\\'' Roses/01.mp3'\n");
    assert!(list.ends_with("\n"));
}

#[test]
fn playlist_lists_every_track_in_order() {
    let list = concat_playlist(&[FilePath::parse("/a/1.mp3"), FilePath::parse("/a/2.mp3")]);
    assert_eq!(list, "file '/a/1.mp3'\nfile '/a/2.mp3'\n");
}

#[test]
fn an_empty_album_is_an_error() {
    assert!(album_playlist(&[]).is_err());
    assert_eq!(album_playlist(&[]).unwrap_err(), "album has no tracks");
    assert_eq!(album_playlist(&[FilePath::parse("/a/1.mp3")]).unwrap(), "file '/a/1.mp3'\n");
}

#[test]
fn the_end_of_the_output_explains_a_failure() {
    assert_eq!(
        no_loudness("first\r\n\nsecond\n   \nthird\nfourth"),
        "no loudness in ffmpeg output: fourth / third / second"
    );
    assert_eq!(no_loudness("only\n"), "no loudness in ffmpeg output: only");
    assert_eq!(no_loudness(""), "no loudness in ffmpeg output: ");
}

#[test]
fn tagged_albums_are_left_alone_unless_forced() {
    let options = Options::default();
    assert_eq!((options.force, options.jobs, options.limit), (false, 8, None));
    assert_eq!(options.pending_sql(), UNMEASURED_ALBUMS);
    assert_eq!(Options { force: true, ..options }.pending_sql(), ALL_ALBUMS);
    assert_eq!(options.workers(), 8);
    assert_eq!(Options { jobs: 0, ..options }.workers(), 1);
}

fn pending(id: i64, tracks: usize) -> Pending {
    Pending { id, label: format!("{id}"), tracks: (0..tracks).map(|i| FilePath::parse(&format!("/{i}"))).collect() }
}

#[test]
fn albums_without_tracks_do_not_use_up_the_limit() {
    let all = || vec![pending(1, 0), pending(2, 1), pending(3, 0), pending(4, 2), pending(5, 1)];
    let ids = |limit: Option<usize>| -> Vec<i64> {
        collect_pending(all(), Options { limit, ..Options::default() }).iter().map(|p| p.id).collect()
    };
    assert_eq!(ids(None), vec![2, 4, 5]);
    assert_eq!(ids(Some(2)), vec![2, 4]);
    assert_eq!(ids(Some(0)), Vec::<i64>::new());
}

#[test]
fn every_measurement_is_noted() {
    let mut report = Report::new(3);
    assert_eq!(report.note(&"A".into(), Outcome::Measured), 1);
    assert_eq!(report.note(&"B".into(), Outcome::Silent), 2);
    assert_eq!(report.note(&"C".into(), Outcome::Failed("broken".into())), 3);
    assert_eq!((report.considered, report.measured, report.silent, report.failed), (3, 1, 1, 1));
    assert_eq!(
        report.errors,
        vec![
            ("B".to_string(), "no measurable audio (silent)".to_string()),
            ("C".to_string(), "broken".to_string()),
        ]
    );
}
