//! Reading what ffprobe prints.

use albumplayer::ffprobe::{duration_text, field, parse};
use albumplayer::model::TrackMeta;
use albumplayer::path::FilePath;

const SAMPLE: &str = r#"{
        "streams": [ { "codec_name": "mp3", "sample_rate": "44100", "bit_rate": "192000" } ],
        "format": {
            "duration": "86.390125",
            "tags": {
                "title": "Kick Out The Jams",
                "album": "The Presidents of the United States of America",
                "artist": "The Presidents of the United States of America",
                "track": "9/24",
                "date": "2005-08-16"
            }
        }
    }"#;

/// The duration is read as a number first, as every caller does.
fn probe(json: &str, path: &str, mtime: i64, size: i64) -> Option<TrackMeta> {
    let seconds: f64 = duration_text(json)?.parse().ok()?;
    parse(json, FilePath::parse(path), mtime, size, (seconds * 1000.0) as i64)
}

#[test]
fn tags_and_properties_come_out_of_ffprobe_json() {
    let meta = probe(SAMPLE, "/m/x.mp3", 7, 99).expect("parsed");
    assert_eq!(meta.title.as_deref(), Some("Kick Out The Jams"));
    assert_eq!(meta.track_no, 9, "a 'n/total' track number is handled");
    assert_eq!(meta.year, Some(2005));
    assert_eq!(meta.duration_ms, 86_390);
    assert_eq!(meta.codec.as_deref(), Some("mp3"));
    assert_eq!(meta.sample_rate, Some(44_100));
    assert_eq!(meta.bitrate, Some(192));
    assert_eq!(meta.mtime, 7);
    assert_eq!(meta.size, 99);
}

#[test]
fn uppercase_tag_names_are_matched_too() {
    let json = r#"{"format":{"duration":"10.0","tags":{"TITLE":"Shouty","ALBUM":"Caps"}}}"#;
    let meta = probe(json, "/m/x.flac", 0, 0).unwrap();
    assert_eq!(meta.title.as_deref(), Some("Shouty"));
    assert_eq!(meta.album_raw.as_deref(), Some("Caps"));
}

#[test]
fn a_file_with_no_duration_is_not_a_track() {
    assert!(probe(r#"{"format":{}}"#, "/m/x", 0, 0).is_none());
    assert!(probe(r#"{"format":{"duration":"0.0"}}"#, "/m/x", 0, 0).is_none());
}

#[test]
fn missing_tags_are_absent_rather_than_empty() {
    let json = r#"{"format":{"duration":"5.0","tags":{"title":"  "}}}"#;
    let meta = probe(json, "/m/x", 0, 0).unwrap();
    assert_eq!(meta.title, None, "whitespace is not a title");
    assert_eq!(meta.artist_raw, None);
}

#[test]
fn escaped_characters_in_values_survive() {
    let json = r#"{"format":{"duration":"5.0","tags":{"title":"Say \"Hello\""}}}"#;
    let meta = probe(json, "/m/x", 0, 0).unwrap();
    assert_eq!(meta.title.as_deref(), Some(r#"Say "Hello""#));
}

#[test]
fn a_key_appearing_as_a_value_is_not_mistaken_for_a_field() {
    // "album" occurs as a *value* here before appearing as a key.
    let json = r#"{"format":{"duration":"5.0","tags":{"comment":"album","album":"Real"}}}"#;
    let meta = probe(json, "/m/x", 0, 0).unwrap();
    assert_eq!(meta.album_raw.as_deref(), Some("Real"));
}

#[test]
fn fields_read_back_what_was_quoted() {
    assert_eq!(field(r#"{"a":"x\\y"}"#, "a").as_deref(), Some(r"x\y"));
    assert_eq!(field(r#"{"a":"b"}"#, "c"), None);
    assert_eq!(field(r#"{"a": 12}"#, "a"), None, "only quoted values are read");
}
