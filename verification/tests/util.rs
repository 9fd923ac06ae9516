//! Titles, folders, numbers and dates as they are read out of tags and paths.

use albumplayer::path::FilePath;
use albumplayer::util::{
    album_dir, disc_dir_number, disc_no_from_path, is_disc_dir, leading_u32, majority, normalize, now_unix, sort_key,
    strip_disc_suffix, unix_seconds, year_from_date,
};

fn path(text: &str) -> FilePath {
    FilePath::parse(text)
}

#[test]
fn disc_dirs_are_recognized() {
    for name in ["CD1", "cd 2", "Disc-3", "disk_04", "DISC 12"] {
        assert!(is_disc_dir(name), "{name} should be a disc dir");
    }
    for name in ["Discovery", "CD Singles", "Disc", "Abbey Road", "2 Discs"] {
        assert!(!is_disc_dir(name), "{name} should not be a disc dir");
    }
}

#[test]
fn multi_disc_files_share_an_album_dir() {
    let a = album_dir(&path("/m/Pink Floyd/The Wall/CD1/01.flac"));
    let b = album_dir(&path("/m/Pink Floyd/The Wall/CD2/01.flac"));
    assert_eq!(a, b);
    assert_eq!(a, path("/m/Pink Floyd/The Wall"));
}

#[test]
fn single_disc_album_dir_is_the_parent() {
    let d = album_dir(&path("/m/Radiohead/Kid A/01.opus"));
    assert_eq!(d, path("/m/Radiohead/Kid A"));
}

#[test]
fn sort_key_moves_articles() {
    assert_eq!(sort_key("The Beatles"), "beatles");
    assert_eq!(sort_key("A Tribe Called Quest"), "tribe called quest");
    assert_eq!(sort_key("Anathema"), "anathema");
}

#[test]
fn track_numbers_tolerate_totals() {
    assert_eq!(leading_u32("03/12"), Some(3));
    assert_eq!(leading_u32(" 7 "), Some(7));
    assert_eq!(leading_u32("A1"), None);
}

#[test]
fn years_come_out_of_dates() {
    assert_eq!(year_from_date("1997-08-12"), Some(1997));
    assert_eq!(year_from_date("1997"), Some(1997));
    assert_eq!(year_from_date(""), None);
}

#[test]
fn disc_numbers_come_out_of_directory_names() {
    assert_eq!(disc_dir_number("CD1"), Some(1));
    assert_eq!(disc_dir_number("CD 2"), Some(2));
    assert_eq!(disc_dir_number("Disc-03"), Some(3));
    assert_eq!(disc_dir_number("Disc Two"), Some(2));
    assert_eq!(disc_dir_number("Discovery"), None);
}

#[test]
fn disc_number_is_inferred_from_the_containing_folder() {
    // The White Album case: disc folders, but no disc tag anywhere.
    let d1 = disc_no_from_path(&path("/m/Beatles/White Album/Disc 1/a.mp3"));
    let d2 = disc_no_from_path(&path("/m/Beatles/White Album/Disc 2/a.mp3"));
    assert_eq!((d1, d2), (Some(1), Some(2)));
    assert_eq!(disc_no_from_path(&path("/m/Radiohead/Kid A/01.opus")), None);
}

#[test]
fn disc_markers_are_stripped_from_album_titles() {
    assert_eq!(strip_disc_suffix("Hullabaloo CD1"), ("Hullabaloo".into(), Some(1)));
    assert_eq!(
        strip_disc_suffix("Forty Licks ( Disc 2 )"),
        ("Forty Licks".into(), Some(2))
    );
    assert_eq!(
        strip_disc_suffix("Forty Licks (Disc One)"),
        ("Forty Licks".into(), Some(1))
    );
    assert_eq!(
        strip_disc_suffix("The Wall [CD 2]"),
        ("The Wall".into(), Some(2))
    );
}

#[test]
fn ordinary_titles_survive_disc_stripping_untouched() {
    for title in [
        "Kid A",
        "Discovery",
        "Live at the BBC",
        "Rolling Stones - 40 Licks ( 2 Discs)",
        "Disc 2",
    ] {
        assert_eq!(strip_disc_suffix(title), (title.to_string(), None), "{title}");
    }
}

#[test]
fn both_halves_of_a_split_double_reduce_to_one_title() {
    let (a, na) = strip_disc_suffix("Hullabaloo CD1");
    let (b, nb) = strip_disc_suffix("Hullabaloo CD2");
    assert_eq!(a, b);
    assert_ne!(na, nb);
}

#[test]
fn majority_picks_the_common_value() {
    let vals = vec![
        Some("Miles Davis".into()),
        Some("Miles Davis".into()),
        Some("miles davis".into()),
        None,
    ];
    assert_eq!(majority(vals), Some("Miles Davis".into()));
}

#[test]
fn a_tie_goes_to_the_first_value() {
    let vals = vec![Some("B".into()), Some("A".into()), Some("A".into()), Some("B".into())];
    assert_eq!(majority(vals), Some("B".into()));
    assert_eq!(majority(vec![None, None]), None);
    assert_eq!(majority(vec![]), None);
}

#[test]
fn normalizing_folds_case_and_spacing() {
    assert_eq!(normalize("  Kid   A "), "kid a");
    assert_eq!(normalize("MOTÖRHEAD\tLive"), "motörhead live");
    assert_eq!(normalize(""), "");
    // One letter whose lowercase is two characters, and settled.
    assert_eq!(normalize("İzmir"), "i\u{307}zmir");
    assert_eq!(normalize(&normalize("İzmir")), normalize("İzmir"));
}

#[test]
fn normalizing_again_changes_nothing() {
    for title in ["  Kid   A ", "MOTÖRHEAD", "A\u{a0}B"] {
        let once = normalize(title);
        assert_eq!(normalize(&once), once);
    }
}

#[test]
fn the_clock_reads_zero_before_the_epoch() {
    assert_eq!(unix_seconds(None), 0);
    assert_eq!(unix_seconds(Some(1_700_000_000)), 1_700_000_000);
    assert!(now_unix() > 1_600_000_000);
}

#[test]
fn a_disc_marker_stands_on_a_word_boundary() {
    assert_eq!(strip_disc_suffix("Live Écd 2"), ("Live Écd 2".into(), None));
    assert_eq!(strip_disc_suffix("Live …cd 2"), ("Live …".into(), Some(2)));
    assert_eq!(strip_disc_suffix("Discovery Live CD2"), ("Discovery Live".into(), Some(2)));
}

#[test]
fn a_disc_marker_comes_off_again() {
    for open in [" ", " (", " - ", "_", " ["] {
        for word in ["CD", "Disc", "disk", "DISC"] {
            for sep in ["", " ", "#", "-", ": "] {
                for (number, n) in [("1", 1), ("07", 7), ("Two", 2), ("twelve", 12)] {
                    for close in ["", ")", " ]", ". "] {
                        let marked = format!("Kid A{open}{word}{sep}{number}{close}");
                        assert_eq!(strip_disc_suffix(&marked), ("Kid A".to_string(), Some(n)), "{marked}");
                    }
                }
            }
        }
    }
}
