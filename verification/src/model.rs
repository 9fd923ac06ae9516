//! Domain types. The album is the primary unit here, not the track.

use vstd::prelude::*;

use crate::path::FilePath;
use crate::path::PathView;
use crate::text;

verus! {

/// A floating-point number, kept as its IEEE 754 bit pattern: it is stored and
/// handed on here, never computed with.
#[derive(Debug, Clone, Copy, PartialEq, Eq, Structural)]
pub struct Real {
    pub bits: u64,
}

/// Everything the scanner reads out of one audio file, before any grouping
/// decisions are made. The `*_raw` fields are kept verbatim so that a rescan
/// can regroup from the database without re-reading tags off disk.
#[derive(Debug)]
pub struct TrackMeta {
    pub path: FilePath,
    pub mtime: i64,
    pub size: i64,
    pub title: Option<String>,
    pub artist_raw: Option<String>,
    pub album_artist_raw: Option<String>,
    pub album_raw: Option<String>,
    pub mb_album_id: Option<String>,
    pub compilation: bool,
    pub disc_no: u32,
    pub track_no: u32,
    pub year: Option<i32>,
    pub duration_ms: i64,
    pub codec: Option<String>,
    pub bitrate: Option<u32>,
    pub sample_rate: Option<u32>,
    pub rg_track_gain: Option<Real>,
    pub rg_track_peak: Option<Real>,
    pub rg_album_gain: Option<Real>,
    pub rg_album_peak: Option<Real>,
}

impl Clone for TrackMeta {
    fn clone(&self) -> (r: Self)
        ensures
            r.path@ == self.path@,
            r == (TrackMeta { path: r.path, ..*self }),
    {
        TrackMeta {
            path: self.path.clone(),
            mtime: self.mtime,
            size: self.size,
            title: self.title.clone(),
            artist_raw: self.artist_raw.clone(),
            album_artist_raw: self.album_artist_raw.clone(),
            album_raw: self.album_raw.clone(),
            mb_album_id: self.mb_album_id.clone(),
            compilation: self.compilation,
            disc_no: self.disc_no,
            track_no: self.track_no,
            year: self.year,
            duration_ms: self.duration_ms,
            codec: self.codec.clone(),
            bitrate: self.bitrate,
            sample_rate: self.sample_rate,
            rg_track_gain: self.rg_track_gain,
            rg_track_peak: self.rg_track_peak,
            rg_album_gain: self.rg_album_gain,
            rg_album_peak: self.rg_album_peak,
        }
    }
}

/// The title a track is shown under.
pub open spec fn shown_title(title: Option<Seq<char>>, path: PathView) -> Seq<char> {
    match title {
        Some(t) if !text::is_blank(t) => t,
        _ => match path.file_stem() {
            Some(stem) => stem,
            None => "Unknown"@,
        },
    }
}

impl TrackMeta {
    /// Display title, falling back to the file stem for untagged files.
    pub fn display_title(&self) -> (r: String)
        ensures
            r@ == shown_title(text::opt_text(self.title), self.path@),
    {
        if let Some(t) = &self.title {
            if !text::blank(t) {
                return t.clone();
            }
        }
        match self.path.file_stem() {
            Some(stem) => stem,
            None => "Unknown".to_owned(),
        }
    }
}

/// How an album's identity was established, surfaced by the library check so
/// you can see which albums rest on weak evidence.
#[derive(Debug, Clone, Copy, PartialEq, Eq, Structural)]
pub enum IdentitySource {
    /// A MusicBrainz release ID was present: the strongest signal.
    MusicBrainz,
    /// Resolved album artist plus album title (plus year when tagged).
    ArtistTitle,
    /// No usable album tag; the directory path is all we have.
    Directory,
}

/// The name an identity source is stored under.
pub open spec fn identity_name(source: IdentitySource) -> Seq<char> {
    match source {
        IdentitySource::MusicBrainz => "musicbrainz"@,
        IdentitySource::ArtistTitle => "artist+title"@,
        IdentitySource::Directory => "directory"@,
    }
}

impl IdentitySource {
    pub fn as_str(self) -> (r: &'static str)
        ensures
            r@ == identity_name(self),
    {
        match self {
            IdentitySource::MusicBrainz => "musicbrainz",
            IdentitySource::ArtistTitle => "artist+title",
            IdentitySource::Directory => "directory",
        }
    }
}

/// An album assembled from a group of files, with per-album fields resolved by
/// majority vote across its tracks.
#[derive(Debug)]
pub struct AlbumDraft {
    /// Stable identity used as the database key. Survives directory renames
    /// whenever tags are good enough to identify the release.
    pub group_key: String,
    pub identity: IdentitySource,
    pub title: String,
    pub album_artist: String,
    pub year: Option<i32>,
    pub mb_album_id: Option<String>,
    pub dir_path: FilePath,
    pub art_path: Option<FilePath>,
    pub is_compilation: bool,
    /// How many directories this album was assembled from. More than one means
    /// separate folders resolved to the same release and were merged.
    pub source_dirs: usize,
    pub tracks: Vec<TrackMeta>,
}

/// What an [`AlbumDraft`] holds.
#[verifier::ext_equal]
pub struct DraftView {
    pub group_key: Seq<char>,
    pub identity: IdentitySource,
    pub title: Seq<char>,
    pub album_artist: Seq<char>,
    pub year: Option<i32>,
    pub mb_album_id: Option<Seq<char>>,
    pub dir_path: PathView,
    pub art_path: Option<PathView>,
    pub is_compilation: bool,
    pub source_dirs: nat,
    pub tracks: Seq<TrackMeta>,
}

/// The path in an optional path.
pub open spec fn opt_path(o: Option<FilePath>) -> Option<PathView> {
    match o {
        Some(p) => Some(p@),
        None => None,
    }
}

impl View for AlbumDraft {
    type V = DraftView;

    open spec fn view(&self) -> DraftView {
        DraftView {
            group_key: self.group_key@,
            identity: self.identity,
            title: self.title@,
            album_artist: self.album_artist@,
            year: self.year,
            mb_album_id: text::opt_text(self.mb_album_id),
            dir_path: self.dir_path@,
            art_path: opt_path(self.art_path),
            is_compilation: self.is_compilation,
            source_dirs: self.source_dirs as nat,
            tracks: self.tracks@,
        }
    }
}

/// The highest disc number of a list of tracks, and no less than 1.
pub open spec fn discs(tracks: Seq<TrackMeta>) -> u32
    decreases tracks.len(),
{
    if tracks.len() == 0 {
        1
    } else {
        let before = discs(tracks.drop_last());
        if tracks.last().disc_no > before {
            tracks.last().disc_no
        } else {
            before
        }
    }
}

/// The time a list of tracks takes.
pub open spec fn total_duration(tracks: Seq<TrackMeta>) -> int
    decreases tracks.len(),
{
    if tracks.len() == 0 {
        0
    } else {
        total_duration(tracks.drop_last()) + tracks.last().duration_ms
    }
}

/// Every running total of the durations fits a signed 64-bit number.
pub open spec fn durations_fit(tracks: Seq<TrackMeta>) -> bool {
    forall|n: int|
        0 <= n <= tracks.len() ==> i64::MIN <= #[trigger] total_duration(tracks.take(n)) <= i64::MAX
}

impl AlbumDraft {
    pub fn disc_count(&self) -> (r: u32)
        ensures
            r == discs(self@.tracks),
    {
        let mut n: u32 = 1;
        for i in 0..self.tracks.len()
            invariant
                n == discs(self.tracks@.take(i as int)),
        {
            assert(self.tracks@.take(i + 1).drop_last() =~= self.tracks@.take(i as int));
            if self.tracks[i].disc_no > n {
                n = self.tracks[i].disc_no;
            }
        }
        assert(self.tracks@.take(self.tracks@.len() as int) =~= self.tracks@);
        n
    }

    pub fn duration_ms(&self) -> (r: i64)
        requires
            durations_fit(self@.tracks),
        ensures
            r == total_duration(self@.tracks),
    {
        let mut sum: i64 = 0;
        for i in 0..self.tracks.len()
            invariant
                durations_fit(self.tracks@),
                sum == total_duration(self.tracks@.take(i as int)),
        {
            assert(self.tracks@.take(i + 1).drop_last() =~= self.tracks@.take(i as int));
            assert(i64::MIN <= total_duration(self.tracks@.take(i + 1)) <= i64::MAX);
            sum += self.tracks[i].duration_ms;
        }
        assert(self.tracks@.take(self.tracks@.len() as int) =~= self.tracks@);
        sum
    }
}

/// Row-level view of an album for listings.
#[derive(Debug, Clone)]
pub struct AlbumRow {
    pub id: i64,
    pub title: String,
    pub album_artist: String,
    pub year: Option<i32>,
    pub track_count: i64,
    pub disc_count: i64,
    pub duration_ms: i64,
    pub is_compilation: bool,
    pub dir_path: String,
    pub source_dirs: i64,
    pub play_count: i64,
    pub last_played: Option<i64>,
}

#[derive(Debug, Clone)]
pub struct ArtistRow {
    pub id: i64,
    pub name: String,
    pub album_count: i64,
    pub track_plays: i64,
    pub album_plays: i64,
    pub last_played: Option<i64>,
}

#[derive(Debug, Clone)]
pub struct TrackRow {
    pub id: i64,
    pub disc_no: i64,
    pub track_no: i64,
    pub title: String,
    pub artist: String,
    pub duration_ms: i64,
    pub codec: Option<String>,
    pub path: String,
    pub play_count: i64,
}

/// Aggregate counts for the `stats` command.
#[derive(Debug, Clone, Default)]
pub struct LibraryStats {
    pub albums: i64,
    pub artists: i64,
    pub tracks: i64,
    pub total_duration_ms: i64,
    pub compilations: i64,
    pub missing_albums: i64,
    pub missing_tracks: i64,
    pub album_plays: i64,
    pub track_plays: i64,
}

} // verus!
