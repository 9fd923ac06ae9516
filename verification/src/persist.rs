//! What a scan writes into the database.
//!
//! Rows are upserted on their stable keys so that the identifiers of albums and
//! tracks survive rescans: play history references them. Anything not seen in a
//! pass is flagged as absent rather than deleted, and what enrichment measured or
//! fetched stays as it is.

use vstd::prelude::*;

use crate::model;
use crate::model::{AlbumDraft, Real, TrackMeta};
use crate::path;
use crate::text;
use crate::text::{chars_of, text_of, trim_of};
use crate::util;
use crate::util::sort_key;

verus! {

/// An artist, as a row is written. The name is the key.
pub struct ArtistRecord {
    pub name: String,
    pub sort_name: String,
}

/// The name an artist is stored under.
pub open spec fn stored_name(name: Seq<char>) -> Seq<char> {
    if text::is_blank(name) {
        "Unknown Artist"@
    } else {
        text::trimmed(name)
    }
}

/// The key a text is ordered by.
pub open spec fn sorts_as(s: Seq<char>) -> Seq<char> {
    util::without_article(util::norm(s))
}

impl ArtistRecord {
    /// The row for this artist.
    pub open spec fn is_for(self, name: Seq<char>) -> bool {
        self.name@ == stored_name(name) && self.sort_name@ == sorts_as(stored_name(name))
    }
}

/// The row for an artist; a blank name is an unknown one.
pub fn artist_record(name: &str) -> (r: ArtistRecord)
    ensures
        r.is_for(name@),
{
    let t = trim_of(&chars_of(name));
    let name = if t.len() == 0 {
        "Unknown Artist".to_owned()
    } else {
        text_of(&t)
    };
    let sort_name = sort_key(&name);
    ArtistRecord { name, sort_name }
}

/// An album, as a row is written. The group key is the key.
pub struct AlbumRecord {
    pub group_key: String,
    pub identity_source: &'static str,
    pub title: String,
    pub sort_title: String,
    pub year: Option<i32>,
    pub mb_album_id: Option<String>,
    pub dir_path: String,
    pub disc_count: u32,
    pub track_count: i64,
    pub duration_ms: i64,
    pub art_path: Option<String>,
    pub is_compilation: bool,
    pub source_dirs: i64,
    /// When the album was seen; also when it was added, if it is new.
    pub seen_at: i64,
}

impl AlbumRecord {
    /// The row for this album as of `now`.
    pub open spec fn is_for(self, d: AlbumDraft, now: i64) -> bool {
        &&& self.group_key == d.group_key
        &&& self.identity_source@ == model::identity_name(d.identity)
        &&& self.title == d.title
        &&& self.sort_title@ == sorts_as(d.title@)
        &&& self.year == d.year
        &&& self.mb_album_id == d.mb_album_id
        &&& self.dir_path@ == d.dir_path@.text()
        &&& self.disc_count == model::discs(d.tracks@)
        &&& self.track_count == d.tracks@.len() as i64
        &&& self.duration_ms == model::total_duration(d.tracks@)
        &&& match d.art_path {
            Some(p) => self.art_path matches Some(t) && t@ == p@.text(),
            None => self.art_path is None,
        }
        &&& self.is_compilation == d.is_compilation
        &&& self.source_dirs == d.source_dirs as i64
        &&& self.seen_at == now
    }
}

/// A track, as a row is written. The path is the key.
pub struct TrackRecord {
    pub path: String,
    pub disc_no: u32,
    pub track_no: u32,
    pub title: String,
    pub duration_ms: i64,
    pub codec: Option<String>,
    pub bitrate: Option<u32>,
    pub sample_rate: Option<u32>,
    pub rg_track_gain: Option<Real>,
    pub rg_track_peak: Option<Real>,
    pub rg_album_gain: Option<Real>,
    pub rg_album_peak: Option<Real>,
    pub album_raw: Option<String>,
    pub album_artist_raw: Option<String>,
    pub artist_raw: Option<String>,
    pub mb_album_id: Option<String>,
    pub compilation: bool,
    pub year: Option<i32>,
    pub mtime: i64,
    pub size: i64,
    /// When the track was added, if it is new.
    pub added_at: i64,
}

impl TrackRecord {
    /// The row for this track as of `now`.
    pub open spec fn is_for(self, t: TrackMeta, now: i64) -> bool {
        &&& self.path@ == t.path@.text()
        &&& self.disc_no == t.disc_no
        &&& self.track_no == t.track_no
        &&& self.title@ == model::shown_title(text::opt_text(t.title), t.path@)
        &&& self.duration_ms == t.duration_ms
        &&& self.codec == t.codec
        &&& self.bitrate == t.bitrate
        &&& self.sample_rate == t.sample_rate
        &&& self.rg_track_gain == t.rg_track_gain
        &&& self.rg_track_peak == t.rg_track_peak
        &&& self.rg_album_gain == t.rg_album_gain
        &&& self.rg_album_peak == t.rg_album_peak
        &&& self.album_raw == t.album_raw
        &&& self.album_artist_raw == t.album_artist_raw
        &&& self.artist_raw == t.artist_raw
        &&& self.mb_album_id == t.mb_album_id
        &&& self.compilation == t.compilation
        &&& self.year == t.year
        &&& self.mtime == t.mtime
        &&& self.size == t.size
        &&& self.added_at == now
    }
}

fn track_record(t: &TrackMeta, now: i64) -> (r: TrackRecord)
    ensures
        r.is_for(*t, now),
{
    TrackRecord {
        path: t.path.to_text(),
        disc_no: t.disc_no,
        track_no: t.track_no,
        title: t.display_title(),
        duration_ms: t.duration_ms,
        codec: t.codec.clone(),
        bitrate: t.bitrate,
        sample_rate: t.sample_rate,
        rg_track_gain: t.rg_track_gain,
        rg_track_peak: t.rg_track_peak,
        rg_album_gain: t.rg_album_gain,
        rg_album_peak: t.rg_album_peak,
        album_raw: t.album_raw.clone(),
        album_artist_raw: t.album_artist_raw.clone(),
        artist_raw: t.artist_raw.clone(),
        mb_album_id: t.mb_album_id.clone(),
        compilation: t.compilation,
        year: t.year,
        mtime: t.mtime,
        size: t.size,
        added_at: now,
    }
}

/// A track's row with that of its artist.
pub struct TrackWrite {
    pub artist: ArtistRecord,
    pub track: TrackRecord,
}

/// Everything that is written for one album: its artist, its own row, and its
/// tracks.
pub struct AlbumWrite {
    pub artist: ArtistRecord,
    pub album: AlbumRecord,
    pub tracks: Vec<TrackWrite>,
}

/// Who a track is credited to: its own artist, or the album's when it names none.
pub open spec fn track_credit(t: TrackMeta, album_artist: Seq<char>) -> Seq<char> {
    match t.artist_raw {
        Some(name) => name@,
        None => album_artist,
    }
}

impl AlbumWrite {
    /// What is written for this album as of `now`.
    pub open spec fn is_for(self, d: AlbumDraft, now: i64) -> bool {
        &&& self.artist.is_for(d.album_artist@)
        &&& self.album.is_for(d, now)
        &&& self.tracks@.len() == d.tracks@.len()
        &&& forall|i: int|
            0 <= i < d.tracks@.len() ==> {
                &&& (#[trigger] self.tracks@[i]).artist.is_for(
                    track_credit(d.tracks@[i], d.album_artist@),
                )
                &&& self.tracks@[i].track.is_for(d.tracks@[i], now)
            }
    }
}

fn album_write(d: &AlbumDraft, now: i64) -> (r: AlbumWrite)
    requires
        model::durations_fit(d.tracks@),
    ensures
        r.is_for(*d, now),
{
    let mut tracks: Vec<TrackWrite> = Vec::new();
    for i in 0..d.tracks.len()
        invariant
            tracks@.len() == i,
            forall|k: int|
                0 <= k < i ==> {
                    &&& (#[trigger] tracks@[k]).artist.is_for(
                        track_credit(d.tracks@[k], d.album_artist@),
                    )
                    &&& tracks@[k].track.is_for(d.tracks@[k], now)
                },
    {
        let t = &d.tracks[i];
        let artist = match &t.artist_raw {
            Some(name) => artist_record(name),
            None => artist_record(&d.album_artist),
        };
        tracks.push(TrackWrite { artist, track: track_record(t, now) });
    }
    AlbumWrite {
        artist: artist_record(&d.album_artist),
        album: AlbumRecord {
            group_key: d.group_key.clone(),
            identity_source: d.identity.as_str(),
            title: d.title.clone(),
            sort_title: sort_key(&d.title),
            year: d.year,
            mb_album_id: d.mb_album_id.clone(),
            dir_path: d.dir_path.to_text(),
            disc_count: d.disc_count(),
            track_count: d.tracks.len() as i64,
            duration_ms: d.duration_ms(),
            art_path: match &d.art_path {
                Some(p) => Some(p.to_text()),
                None => None,
            },
            is_compilation: d.is_compilation,
            source_dirs: d.source_dirs as i64,
            seen_at: now,
        },
        tracks,
    }
}

/// Whether every running total of an album's track durations fits.
pub fn durations_in_range(tracks: &Vec<TrackMeta>) -> (r: bool)
    ensures
        r == model::durations_fit(tracks@),
{
    let mut sum: i64 = 0;
    assert forall|n: int| n == 0 implies i64::MIN <= #[trigger] model::total_duration(
        tracks@.take(n),
    ) <= i64::MAX by {}
    for i in 0..tracks.len()
        invariant
            sum == model::total_duration(tracks@.take(i as int)),
            forall|n: int|
                0 <= n <= i ==> i64::MIN <= #[trigger] model::total_duration(tracks@.take(n))
                    <= i64::MAX,
    {
        assert(tracks@.take(i + 1).drop_last() =~= tracks@.take(i as int));
        let next = sum.checked_add(tracks[i].duration_ms);
        match next {
            Some(n) => {
                sum = n;
            },
            None => {
                assert(!(i64::MIN <= model::total_duration(tracks@.take(i + 1)) <= i64::MAX));
                return false;
            },
        }
    }
    true
}

/// What is written for the resolved albums, in their order.
pub fn persist(drafts: &Vec<AlbumDraft>, now: i64) -> (r: Vec<AlbumWrite>)
    requires
        forall|i: int| 0 <= i < drafts@.len() ==> model::durations_fit((#[trigger] drafts@[i]).tracks@),
    ensures
        r@.len() == drafts@.len(),
        forall|i: int| 0 <= i < drafts@.len() ==> (#[trigger] r@[i]).is_for(drafts@[i], now),
{
    let mut out: Vec<AlbumWrite> = Vec::new();
    for i in 0..drafts.len()
        invariant
            forall|k: int|
                0 <= k < drafts@.len() ==> model::durations_fit((#[trigger] drafts@[k]).tracks@),
            out@.len() == i,
            forall|k: int| 0 <= k < i ==> (#[trigger] out@[k]).is_for(drafts@[k], now),
    {
        assert(model::durations_fit(drafts@[i as int].tracks@));
        out.push(album_write(&drafts[i], now));
    }
    out
}

/// What enrichment fills in of an album. Measuring loudness and fetching covers
/// is far too expensive to redo every time the library is walked.
pub struct Enrichment {
    pub rg_gain_db: Option<Real>,
    pub rg_peak: Option<Real>,
    pub rg_measured_at: Option<i64>,
    pub art_cache_path: Option<String>,
    pub art_checked_at: Option<i64>,
    pub art_mb_release_id: Option<String>,
}

/// What a stored album keeps whatever a scan finds.
pub struct AlbumKept {
    /// The number play history refers to; none until the row is stored.
    pub id: Option<i64>,
    pub added_at: i64,
    pub enrichment: Enrichment,
}

/// What a stored track keeps whatever a scan finds.
pub struct TrackKept {
    pub id: Option<i64>,
    pub added_at: i64,
}

/// A stored row: what it keeps, whether its files were there when last looked
/// for, and what the scan that last saw it wrote.
pub struct Row<K, R> {
    pub kept: K,
    pub present: bool,
    pub record: R,
}

/// What an album starts out with when it is first seen.
pub open spec fn new_album(record: AlbumRecord) -> AlbumKept {
    AlbumKept {
        id: None,
        added_at: record.seen_at,
        enrichment: Enrichment {
            rg_gain_db: None,
            rg_peak: None,
            rg_measured_at: None,
            art_cache_path: None,
            art_checked_at: None,
            art_mb_release_id: None,
        },
    }
}

/// What a track starts out with when it is first seen.
pub open spec fn new_track(record: TrackRecord) -> TrackKept {
    TrackKept { id: None, added_at: record.added_at }
}

/// The row of something that a scan has seen. What is stored of it already, if
/// anything, is kept.
pub open spec fn seen_row<K, R>(stored: Option<K>, fresh: K, record: R) -> Row<K, R> {
    Row {
        kept: match stored {
            Some(k) => k,
            None => fresh,
        },
        present: true,
        record,
    }
}

/// The row to store for an album that was seen, given what is kept of the one
/// stored under the same identity.
pub fn album_row(stored: Option<AlbumKept>, record: AlbumRecord) -> (r: Row<
    AlbumKept,
    AlbumRecord,
>)
    ensures
        r == seen_row(stored, new_album(record), record),
{
    let kept = match stored {
        Some(k) => k,
        None => AlbumKept {
            id: None,
            added_at: record.seen_at,
            enrichment: Enrichment {
                rg_gain_db: None,
                rg_peak: None,
                rg_measured_at: None,
                art_cache_path: None,
                art_checked_at: None,
                art_mb_release_id: None,
            },
        },
    };
    Row { kept, present: true, record }
}

/// The row to store for a track that was seen, given what is kept of the one
/// stored under the same path.
pub fn track_row(stored: Option<TrackKept>, record: TrackRecord) -> (r: Row<
    TrackKept,
    TrackRecord,
>)
    ensures
        r == seen_row(stored, new_track(record), record),
{
    let kept = match stored {
        Some(k) => k,
        None => TrackKept { id: None, added_at: record.added_at },
    };
    Row { kept, present: true, record }
}

/// Something that a scan has seen: its key, what it starts out with when it is
/// new, and what is written of it.
pub struct Seen<K, R> {
    pub key: Seq<char>,
    pub fresh: K,
    pub record: R,
}

/// What is kept of the row stored under a key.
pub open spec fn kept_at<K, R>(table: Map<Seq<char>, Row<K, R>>, key: Seq<char>) -> Option<K> {
    if table.contains_key(key) {
        Some(table[key].kept)
    } else {
        None
    }
}

/// A table of rows by their keys after a scan: every row marked absent, when the
/// scan is to be trusted on absences, and then what it saw put in turn by turn.
pub open spec fn scanned<K, R>(
    table: Map<Seq<char>, Row<K, R>>,
    seen: Seq<Seen<K, R>>,
    clears: bool,
) -> Map<Seq<char>, Row<K, R>>
    decreases seen.len(),
{
    if seen.len() == 0 {
        table.map_values(
            |row: Row<K, R>| Row { present: row.present && !clears, ..row },
        )
    } else {
        let before = scanned(table, seen.drop_last(), clears);
        let s = seen.last();
        before.insert(s.key, seen_row(kept_at(before, s.key), s.fresh, s.record))
    }
}

/// Whether a scan saw something under a key.
pub open spec fn saw<K, R>(seen: Seq<Seen<K, R>>, key: Seq<char>) -> bool {
    exists|i: int| 0 <= i < seen.len() && (#[trigger] seen[i]).key == key
}

/// Scanning never deletes. Every row that was stored is still stored, under its
/// number and with its time of adding and all that enrichment filled in. A row that
/// the scan did not see stays as it is, but for its mark; and the mark goes only
/// when the scan is to be trusted on absences. What is new is what was seen.
pub proof fn scanning_never_deletes<K, R>(
    table: Map<Seq<char>, Row<K, R>>,
    seen: Seq<Seen<K, R>>,
    clears: bool,
    key: Seq<char>,
)
    ensures
        ({
            let after = scanned(table, seen, clears);
            &&& after.contains_key(key) == (table.contains_key(key) || saw(seen, key))
            &&& table.contains_key(key) ==> {
                &&& after[key].kept == table[key].kept
                &&& after[key].present == (saw(seen, key) || (table[key].present && !clears))
                &&& !saw(seen, key) ==> after[key].record == table[key].record
            }
        }),
    decreases seen.len(),
{
    if seen.len() > 0 {
        let front = seen.drop_last();
        scanning_never_deletes(table, front, clears, key);
        assert(saw(seen, key) == (saw(front, key) || seen.last().key == key)) by {
            if saw(front, key) {
                let i = choose|i: int| 0 <= i < front.len() && (#[trigger] front[i]).key == key;
                assert(seen[i].key == key);
            }
            if saw(seen, key) {
                let i = choose|i: int| 0 <= i < seen.len() && (#[trigger] seen[i]).key == key;
                if i < front.len() {
                    assert(front[i].key == key);
                }
            }
            assert(seen[seen.len() - 1].key == seen.last().key);
        }
    }
}

/// The albums that a scan saw, as their table takes them.
pub open spec fn seen_albums(writes: Seq<AlbumWrite>) -> Seq<Seen<AlbumKept, AlbumRecord>> {
    writes.map_values(
        |w: AlbumWrite|
            Seen { key: w.album.group_key@, fresh: new_album(w.album), record: w.album },
    )
}

/// Rescanning keeps what hangs on an album: one that is found again keeps its
/// number, the time it was added, its measured loudness and its cover, and is
/// present.
pub proof fn rescans_keep_albums(
    table: Map<Seq<char>, Row<AlbumKept, AlbumRecord>>,
    writes: Seq<AlbumWrite>,
    clears: bool,
    i: int,
)
    requires
        0 <= i < writes.len(),
        table.contains_key(writes[i].album.group_key@),
    ensures
        ({
            let key = writes[i].album.group_key@;
            let after = scanned(table, seen_albums(writes), clears);
            &&& after.contains_key(key)
            &&& after[key].kept.id == table[key].kept.id
            &&& after[key].kept.added_at == table[key].kept.added_at
            &&& after[key].kept.enrichment == table[key].kept.enrichment
            &&& after[key].present
        }),
{
    let key = writes[i].album.group_key@;
    scanning_never_deletes(table, seen_albums(writes), clears, key);
    assert(seen_albums(writes)[i].key == key);
}

/// A stored path reads back as the path it was written from, so what a scan
/// stores for a file is found again by the next one.
pub proof fn stored_paths_read_back(r: TrackRecord, t: TrackMeta, now: i64)
    requires
        r.is_for(t, now),
        t.path@.well_formed(),
    ensures
        path::path_of(r.path@) == t.path@,
{
    path::path_text_round_trips(t.path@);
}

} // verus!
