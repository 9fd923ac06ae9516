//! The album queue: order within a record is sacred, order between records is not.

use albumplayer::path::FilePath;
use albumplayer::queue::{AlbumQueue, QueuedAlbum, QueuedTrack, Repeat, Source};

fn album(id: i64, tracks: usize) -> QueuedAlbum {
    QueuedAlbum {
        id,
        title: format!("Album {id}"),
        artist: "Artist".into(),
        album_gain_db: None,
        album_peak: None,
        tracks: (0..tracks)
            .map(|i| QueuedTrack {
                id: id * 100 + i as i64,
                source: Source::File(FilePath::parse(&format!("/m/{id}/{i}.opus"))),
                title: format!("Track {i}"),
                disc_no: 1,
                track_no: i as i64 + 1,
                duration_ms: 180_000,
            })
            .collect(),
    }
}

fn queue_of(counts: &[usize]) -> AlbumQueue {
    let mut q = AlbumQueue::new();
    for (i, &n) in counts.iter().enumerate() {
        q.enqueue(album(i as i64 + 1, n));
    }
    q
}

#[test]
fn playing_an_album_starts_at_its_first_track() {
    let mut q = AlbumQueue::new();
    q.play_album(album(1, 5));
    assert_eq!(q.current_track().unwrap().track_no, 1);
    assert_eq!(q.current_album().unwrap().id, 1);
}

#[test]
fn advancing_runs_an_album_in_order_then_moves_to_the_next() {
    let mut q = queue_of(&[3, 2]);
    let mut seen = Vec::new();
    loop {
        let t = q.current_track().unwrap();
        seen.push((q.current_album().unwrap().id, t.track_no));
        if !q.advance() {
            break;
        }
    }
    assert_eq!(seen, vec![(1, 1), (1, 2), (1, 3), (2, 1), (2, 2)]);
}

#[test]
fn empty_albums_are_never_enqueued() {
    let mut q = AlbumQueue::new();
    q.enqueue(album(1, 0));
    assert!(q.is_empty());
    assert!(q.current_track().is_none());
}

#[test]
fn peek_next_crosses_the_album_boundary() {
    let mut q = queue_of(&[1, 2]);
    // Sitting on the only track of album 1; the next file is album 2's first.
    assert_eq!(q.peek_next().unwrap().id, 200);
    q.advance();
    assert_eq!(q.current_album().unwrap().id, 2);
}

#[test]
fn peek_next_is_none_at_the_very_end() {
    let mut q = queue_of(&[1]);
    assert!(q.peek_next().is_none());
    assert!(!q.advance());
}

#[test]
fn shuffle_reorders_albums_but_never_their_tracks() {
    let mut q = queue_of(&[4, 4, 4, 4, 4, 4, 4, 4]);
    q.set_seed(12345);
    q.set_shuffle(true);

    // Walk the whole queue and confirm every album's tracks stayed in order.
    let mut per_album: Vec<(i64, Vec<i64>)> = Vec::new();
    loop {
        let album_id = q.current_album().unwrap().id;
        let track_no = q.current_track().unwrap().track_no;
        match per_album.last_mut() {
            Some((id, nos)) if *id == album_id => nos.push(track_no),
            _ => per_album.push((album_id, vec![track_no])),
        }
        if !q.advance() {
            break;
        }
    }

    assert_eq!(per_album.len(), 8, "each album played as one contiguous run");
    for (_, track_nos) in &per_album {
        assert_eq!(*track_nos, vec![1, 2, 3, 4], "track order is never shuffled");
    }

    let order: Vec<i64> = per_album.iter().map(|(id, _)| *id).collect();
    assert_ne!(order, vec![1, 2, 3, 4, 5, 6, 7, 8], "album order did change");
    let mut sorted = order.clone();
    sorted.sort_unstable();
    assert_eq!(sorted, vec![1, 2, 3, 4, 5, 6, 7, 8], "no album lost or repeated");
}

#[test]
fn enabling_shuffle_keeps_you_on_the_current_album() {
    let mut q = queue_of(&[3, 3, 3, 3, 3]);
    q.next_album();
    q.next_track();
    let (album_id, track_no) = (
        q.current_album().unwrap().id,
        q.current_track().unwrap().track_no,
    );

    q.set_seed(999);
    q.set_shuffle(true);

    assert_eq!(q.current_album().unwrap().id, album_id);
    assert_eq!(q.current_track().unwrap().track_no, track_no);
}

#[test]
fn shuffling_before_playback_can_start_on_any_album() {
    // Turning shuffle on before pressing play must be able to land on an
    // album other than the first, or every session starts the same way.
    let mut first_albums = std::collections::HashSet::new();
    for seed in 1..40u64 {
        let mut q = queue_of(&[1, 1, 1, 1, 1, 1, 1, 1]);
        q.set_seed(seed);
        q.set_shuffle(true);
        first_albums.insert(q.current_album().unwrap().id);
    }
    assert!(
        first_albums.len() > 1,
        "shuffle always started on album {first_albums:?}"
    );
}

#[test]
fn two_queues_do_not_shuffle_identically() {
    // A fixed seed would deal the same order every run.
    let orders: Vec<Vec<i64>> = (0..2)
        .map(|_| {
            let mut q = queue_of(&[1; 12]);
            q.set_shuffle(true);
            q.upcoming().iter().map(|a| a.id).collect()
        })
        .collect();
    assert_ne!(orders[0], orders[1], "shuffle is seeded from the clock");
}

#[test]
fn disabling_shuffle_restores_release_order() {
    let mut q = queue_of(&[2, 2, 2, 2]);
    q.set_seed(7);
    q.set_shuffle(true);
    q.set_shuffle(false);

    let ids: Vec<i64> = q.upcoming().iter().map(|a| a.id).collect();
    assert_eq!(ids, vec![1, 2, 3, 4]);
}

#[test]
fn next_track_and_next_album_are_different_controls() {
    let mut q = queue_of(&[5, 5]);

    q.next_track();
    assert_eq!(q.current_album().unwrap().id, 1);
    assert_eq!(q.current_track().unwrap().track_no, 2);

    q.next_album();
    assert_eq!(q.current_album().unwrap().id, 2);
    assert_eq!(q.current_track().unwrap().track_no, 1, "lands at the start");
}

#[test]
fn next_track_at_the_end_of_an_album_moves_on() {
    let mut q = queue_of(&[2, 2]);
    q.next_track();
    assert!(q.next_track());
    assert_eq!(q.current_album().unwrap().id, 2);
    assert_eq!(q.current_track().unwrap().track_no, 1);
}

#[test]
fn prev_track_steps_back_into_the_previous_album() {
    let mut q = queue_of(&[3, 3]);
    q.next_album();
    assert!(q.prev_track());
    assert_eq!(q.current_album().unwrap().id, 1);
    assert_eq!(q.current_track().unwrap().track_no, 3, "its last track");
}

#[test]
fn prev_album_restarts_before_it_goes_back() {
    let mut q = queue_of(&[3, 3]);
    q.next_album();
    q.next_track();

    assert!(q.prev_album());
    assert_eq!(q.current_album().unwrap().id, 2, "restarts album 2 first");
    assert_eq!(q.current_track().unwrap().track_no, 1);

    assert!(q.prev_album());
    assert_eq!(q.current_album().unwrap().id, 1);
}

#[test]
fn you_cannot_step_off_the_front_of_the_queue() {
    let mut q = queue_of(&[2]);
    assert!(!q.prev_track());
    assert!(!q.prev_album());
    assert_eq!(q.current_track().unwrap().track_no, 1);
}

#[test]
fn repeat_album_loops_the_record() {
    let mut q = queue_of(&[2, 2]);
    q.set_repeat(Repeat::Album);
    q.advance();
    assert!(q.advance(), "does not run off the end");
    assert_eq!(q.current_album().unwrap().id, 1);
    assert_eq!(q.current_track().unwrap().track_no, 1);
}

#[test]
fn next_track_escapes_a_looping_album() {
    // Repeat::Album should not trap a deliberate skip.
    let mut q = queue_of(&[2, 2]);
    q.set_repeat(Repeat::Album);
    q.next_track();
    assert!(q.next_track());
    assert_eq!(q.current_album().unwrap().id, 2);
}

#[test]
fn repeat_queue_wraps_to_the_first_album() {
    let mut q = queue_of(&[1, 1]);
    q.set_repeat(Repeat::Queue);
    q.advance();
    assert_eq!(q.current_album().unwrap().id, 2);
    assert!(q.advance());
    assert_eq!(q.current_album().unwrap().id, 1);
}

#[test]
fn repeat_off_stops_at_the_end() {
    let mut q = queue_of(&[1, 1]);
    q.advance();
    assert!(!q.advance());
}

#[test]
fn seeking_within_an_album_is_bounded() {
    let mut q = queue_of(&[4]);
    assert!(q.seek_to_track(3));
    assert_eq!(q.current_track().unwrap().track_no, 4);
    assert!(!q.seek_to_track(4), "out of range is refused");
    assert_eq!(q.current_track().unwrap().track_no, 4, "cursor unmoved");
}

#[test]
fn upcoming_starts_with_the_album_now_playing() {
    let mut q = queue_of(&[2, 2, 2]);
    q.next_album();
    let ids: Vec<i64> = q.upcoming().iter().map(|a| a.id).collect();
    assert_eq!(ids, vec![2, 3]);
}

#[test]
fn play_album_replaces_whatever_was_queued() {
    let mut q = queue_of(&[2, 2, 2]);
    q.next_album();
    q.play_album(album(99, 3));
    assert_eq!(q.album_count(), 1);
    assert_eq!(q.current_album().unwrap().id, 99);
    assert_eq!(q.current_track().unwrap().track_no, 1);
}

#[test]
fn stream_urls_pass_through_untouched() {
    // A signed stream URL must reach the pipeline exactly as issued: escaping it
    // as though it were a path would corrupt the query string.
    let url = "https://home.lan/api/tracks/7/stream?token=abc%20def";
    assert_eq!(Source::Url(url.into()).to_uri(None), url);
}

#[test]
fn file_sources_use_the_uri_of_their_path() {
    let file = Source::File(FilePath::parse("/m/A B/01 - x.opus"));
    assert_eq!(file.to_uri(Some("file:///m/A%20B/01%20-%20x.opus".into())), "file:///m/A%20B/01%20-%20x.opus");
    assert_eq!(file.to_uri(None), "file:///m/A B/01 - x.opus");
}

#[test]
fn a_seeded_shuffle_is_repeatable() {
    let orders: Vec<Vec<i64>> = (0..2)
        .map(|_| {
            let mut q = queue_of(&[1; 12]);
            q.set_seed(42);
            q.set_shuffle(true);
            q.upcoming().iter().map(|a| a.id).collect()
        })
        .collect();
    assert_eq!(orders[0], orders[1]);
}

#[test]
fn back_and_forth_returns_to_the_same_track() {
    let mut q = queue_of(&[2, 3]);
    q.next_track();
    let before = q.current_track().unwrap().id;
    assert!(q.next_track());
    assert!(q.prev_track());
    assert_eq!(q.current_track().unwrap().id, before);
}

#[test]
fn enqueueing_while_shuffled_lands_behind_the_current_album() {
    let mut q = queue_of(&[1, 1, 1, 1]);
    q.set_seed(5);
    q.set_shuffle(true);
    let current = q.current_album().unwrap().id;
    q.enqueue(album(9, 2));
    assert_eq!(q.current_album().unwrap().id, current);
    assert!(q.upcoming().iter().skip(1).any(|a| a.id == 9));
    assert_eq!(q.album_count(), 5);
}

#[test]
fn clearing_empties_the_queue() {
    let mut q = AlbumQueue::with_seed(3);
    q.enqueue(album(1, 2));
    q.clear();
    assert!(q.is_empty());
    assert!(q.cursor().is_none());
    assert!(!q.next_album());
    assert!(!q.shuffle_enabled());
    assert_eq!(q.repeat(), Repeat::Off);
}
