//! Resolving files into albums.
//!
//! Album identity is the hard part of an album-first player, and it is decided
//! in two stages:
//!
//! * **Grouping** buckets files by album directory and normalized album tag.
//!   The directory is the strongest available signal for a library laid out one
//!   album per folder, and it handles compilations correctly: every file in the
//!   folder groups together regardless of differing track artists.
//! * **Identity** then derives a stable database key from the *resolved* album,
//!   preferring a MusicBrainz release ID, then album artist + title + year, and
//!   only falling back to the directory path. That ordering means moving or
//!   renaming a well-tagged folder does not orphan its play history.

use vstd::prelude::*;

use crate::model;
use crate::model::{AlbumDraft, DraftView, IdentitySource, TrackMeta};
use crate::order;
use crate::order::{stable_sort, Order};
use crate::path;
use crate::path::FilePath;
use crate::path::PathView;
use crate::text;
use crate::text::{
    append_chars, append_text, bytes_in, chars_of, int_chars, lower_ascii_all, same_text, starts_with, text_of,
};
use crate::util;
use crate::util::{album_dir, majority, normalize, sort_key, strip_disc_suffix};

verus! {

/// The key an album title groups under: the title without its disc marker,
/// normalized. Disc markers go first, so that "Hullabaloo CD1" and
/// "Hullabaloo CD2" land together rather than being filed as two unrelated
/// releases.
pub open spec fn title_key(title: Seq<char>) -> Seq<char> {
    util::norm(util::without_disc(title).0)
}

/// The key of a file without an album title: the name of its directory, which
/// keeps a folder of loose tracks together instead of exploding into singles.
pub open spec fn folder_key(dir: PathView) -> Seq<char> {
    match dir.file_name() {
        Some(name) => util::norm(name),
        None => Seq::empty(),
    }
}

/// The key a file groups under within its album directory.
pub open spec fn album_key(m: TrackMeta) -> Seq<char> {
    match m.album_raw {
        Some(a) if title_key(a@).len() > 0 => title_key(a@),
        _ => folder_key(util::album_dir_of(m.path@)),
    }
}

/// The files of one directory that share a key.
pub struct Bucket {
    pub dir: FilePath,
    pub key: String,
    pub tracks: Vec<TrackMeta>,
}

/// What a [`Bucket`] holds.
#[verifier::ext_equal]
pub struct BucketView {
    pub dir: PathView,
    pub key: Seq<char>,
    pub tracks: Seq<TrackMeta>,
}

impl View for Bucket {
    type V = BucketView;

    open spec fn view(&self) -> BucketView {
        BucketView { dir: self.dir@, key: self.key@, tracks: self.tracks@ }
    }
}

pub open spec fn bucket_views(s: Seq<Bucket>) -> Seq<BucketView> {
    s.map_values(|b: Bucket| b@)
}

/// The first bucket at or after `i` with this directory and key; the length of
/// the list when there is none.
pub open spec fn bucket_at(bs: Seq<BucketView>, dir: PathView, key: Seq<char>, i: int) -> int
    decreases bs.len() - i,
{
    if i >= bs.len() || (bs[i].dir == dir && bs[i].key == key) {
        i
    } else {
        bucket_at(bs, dir, key, i + 1)
    }
}

/// A bucket with further tracks.
pub open spec fn extended(b: BucketView, tracks: Seq<TrackMeta>) -> BucketView {
    BucketView { tracks: b.tracks + tracks, ..b }
}

/// The buckets with one more file put where it belongs.
pub open spec fn filed(bs: Seq<BucketView>, m: TrackMeta) -> Seq<BucketView> {
    let dir = util::album_dir_of(m.path@);
    let i = bucket_at(bs, dir, album_key(m), 0);
    if i < bs.len() {
        bs.update(i, extended(bs[i], seq![m]))
    } else {
        bs.push(BucketView { dir, key: album_key(m), tracks: seq![m] })
    }
}

/// Files by directory and key, in the order in which each pair first occurs.
pub open spec fn bucketed(metas: Seq<TrackMeta>) -> Seq<BucketView>
    decreases metas.len(),
{
    if metas.len() == 0 {
        Seq::empty()
    } else {
        filed(bucketed(metas.drop_last()), metas.last())
    }
}

fn find_bucket(bs: &Vec<Bucket>, dir: &FilePath, key: &str) -> (r: usize)
    ensures
        r == bucket_at(bucket_views(bs@), dir@, key@, 0),
        r <= bs@.len(),
{
    let mut i: usize = 0;
    while i < bs.len() && !(bs[i].dir.same(dir) && same_text(&bs[i].key, key))
        invariant
            i <= bs@.len(),
            bucket_at(bucket_views(bs@), dir@, key@, 0) == bucket_at(
                bucket_views(bs@),
                dir@,
                key@,
                i as int,
            ),
        decreases bs@.len() - i,
    {
        i += 1;
    }
    i
}

fn key_of(m: &TrackMeta, dir: &FilePath) -> (r: String)
    requires
        dir@ == util::album_dir_of(m.path@),
    ensures
        r@ == album_key(*m),
{
    if let Some(a) = &m.album_raw {
        let key = normalize(&strip_disc_suffix(a).0);
        if chars_of(&key).len() > 0 {
            return key;
        }
    }
    match dir.file_name() {
        Some(name) => normalize(&name),
        None => String::new(),
    }
}

fn bucket_files(metas: Vec<TrackMeta>) -> (bs: Vec<Bucket>)
    ensures
        bucket_views(bs@) == bucketed(metas@),
{
    let ghost all = metas@;
    let mut bs: Vec<Bucket> = Vec::new();
    assert(bucket_views(bs@) =~= bucketed(all.take(0)));
    for m in it: metas.into_iter()
        invariant
            it.seq() == all,
            bucket_views(bs@) == bucketed(all.take(it.index() as int)),
    {
        let ghost n = it.index() as int;
        assert(all.take(n + 1).drop_last() =~= all.take(n));
        let ghost before = bs@;
        let dir = album_dir(&m.path);
        let key = key_of(&m, &dir);
        let i: usize = find_bucket(&bs, &dir, &key);
        if i < bs.len() {
            let mut b = bs.remove(i);
            assert(before[i as int]@ == bucket_views(before)[i as int]);
            b.tracks.push(m);
            assert(b@ =~= extended(before[i as int]@, seq![m]));
            bs.insert(i, b);
            assert(bucket_views(bs@) =~= bucket_views(before).update(
                i as int,
                extended(bucket_views(before)[i as int], seq![m]),
            ));
        } else {
            bs.push(Bucket { dir, key, tracks: vec![m] });
            assert(bucket_views(bs@).last().tracks =~= seq![m]);
            assert(bucket_views(bs@) =~= bucket_views(before).push(bucket_views(bs@).last()));
        }
    }
    assert(all.take(all.len() as int) =~= all);
    bs
}

/// The number of bytes that an ID3v1 text field holds.
pub const ID3V1_FIELD_LEN: usize = 30;

/// ID3v1 caps its text fields at 30 bytes. A title of exactly that length was
/// very likely cut off mid-word, making it a prefix rather than a name.
pub open spec fn truncated(title: Seq<char>) -> bool {
    text::byte_len(title) == ID3V1_FIELD_LEN
}

pub fn looks_truncated(title: &str) -> (r: bool)
    ensures
        r == truncated(title@),
{
    bytes_in(title) == ID3V1_FIELD_LEN
}

/// A track whose album title sits on the ID3v1 limit.
pub open spec fn cut_title(t: TrackMeta) -> bool {
    match t.album_raw {
        Some(a) => truncated(util::without_disc(a@).0),
        None => false,
    }
}

/// A bucket whose every track carries a title sitting on the ID3v1 limit;
/// anything else has a title to trust.
pub open spec fn cut_short(b: BucketView) -> bool {
    b.key.len() > 0 && forall|i: int| 0 <= i < b.tracks.len() ==> cut_title(#[trigger] b.tracks[i])
}

/// The directories and keys of the buckets that may be folded.
pub open spec fn candidates(bs: Seq<BucketView>) -> Seq<(PathView, Seq<char>)>
    decreases bs.len(),
{
    if bs.len() == 0 {
        Seq::empty()
    } else {
        let before = candidates(bs.drop_last());
        if cut_short(bs.last()) {
            before.push((bs.last().dir, bs.last().key))
        } else {
            before
        }
    }
}

/// A bucket of the same directory whose key continues a short one.
pub open spec fn continues(b: BucketView, dir: PathView, short: Seq<char>) -> bool {
    b.dir == dir && short.len() < b.key.len() && short.is_prefix_of(b.key)
}

/// Among the first `n` buckets, the one with the shortest key that continues
/// `short`, the earliest of several; -1 when there is none.
pub open spec fn fold_target(bs: Seq<BucketView>, dir: PathView, short: Seq<char>, n: int) -> int
    decreases n,
{
    if n <= 0 {
        -1
    } else {
        let best = fold_target(bs, dir, short, n - 1);
        if continues(bs[n - 1], dir, short) && (best < 0 || text::byte_len(bs[n - 1].key)
            < text::byte_len(bs[best].key)) {
            n - 1
        } else {
            best
        }
    }
}

/// The buckets with one short-titled bucket moved into the one it continues in.
pub open spec fn fold_one(bs: Seq<BucketView>, dir: PathView, short: Seq<char>) -> Seq<BucketView> {
    let t = fold_target(bs, dir, short, bs.len() as int);
    let i = bucket_at(bs, dir, short, 0);
    if t < 0 || i >= bs.len() {
        bs
    } else {
        bs.update(t, extended(bs[t], bs[i].tracks)).remove(i)
    }
}

pub open spec fn fold_each(bs: Seq<BucketView>, short: Seq<(PathView, Seq<char>)>) -> Seq<
    BucketView,
>
    decreases short.len(),
{
    if short.len() == 0 {
        bs
    } else {
        fold_one(fold_each(bs, short.drop_last()), short.last().0, short.last().1)
    }
}

/// Buckets with every cut-short title folded into the longer title it prefixes.
pub open spec fn folded(bs: Seq<BucketView>) -> Seq<BucketView> {
    fold_each(bs, candidates(bs))
}

proof fn lemma_fold_target(bs: Seq<BucketView>, dir: PathView, short: Seq<char>, n: int)
    requires
        0 <= n <= bs.len(),
    ensures
        -1 <= fold_target(bs, dir, short, n) < n || (n == 0 && fold_target(bs, dir, short, n)
            == -1),
        fold_target(bs, dir, short, n) >= 0 ==> continues(
            bs[fold_target(bs, dir, short, n)],
            dir,
            short,
        ),
    decreases n,
{
    if n > 0 {
        lemma_fold_target(bs, dir, short, n - 1);
    }
}

proof fn lemma_bucket_at(bs: Seq<BucketView>, dir: PathView, key: Seq<char>, i: int)
    requires
        0 <= i <= bs.len(),
    ensures
        i <= bucket_at(bs, dir, key, i) <= bs.len(),
        bucket_at(bs, dir, key, i) < bs.len() ==> bs[bucket_at(bs, dir, key, i)].dir == dir
            && bs[bucket_at(bs, dir, key, i)].key == key,
    decreases bs.len() - i,
{
    if i < bs.len() && !(bs[i].dir == dir && bs[i].key == key) {
        lemma_bucket_at(bs, dir, key, i + 1);
    }
}

fn is_cut_short(b: &Bucket) -> (r: bool)
    ensures
        r == cut_short(b@),
{
    if chars_of(&b.key).len() == 0 {
        return false;
    }
    for i in 0..b.tracks.len()
        invariant
            forall|j: int| 0 <= j < i ==> cut_title(#[trigger] b.tracks@[j]),
    {
        let cut = match &b.tracks[i].album_raw {
            Some(a) => looks_truncated(&strip_disc_suffix(a).0),
            None => false,
        };
        if !cut {
            assert(!cut_title(b@.tracks[i as int]));
            return false;
        }
    }
    true
}

fn target_of(bs: &Vec<Bucket>, dir: &FilePath, short: &str) -> (r: Option<usize>)
    ensures
        match r {
            Some(t) => fold_target(bucket_views(bs@), dir@, short@, bs@.len() as int) == t,
            None => fold_target(bucket_views(bs@), dir@, short@, bs@.len() as int) == -1,
        },
{
    let ghost all = bucket_views(bs@);
    let short_chars = chars_of(short);
    let mut best: Option<usize> = None;
    for i in 0..bs.len()
        invariant
            all == bucket_views(bs@),
            short_chars@ == short@,
            match best {
                Some(t) => t < i && fold_target(all, dir@, short@, i as int) == t,
                None => fold_target(all, dir@, short@, i as int) == -1,
            },
    {
        let key = chars_of(&bs[i].key);
        assert(all[i as int].key == key@);
        if bs[i].dir.same(dir) && short_chars.len() < key.len() && starts_with(&key, &short_chars) {
            let shorter = match best {
                Some(t) => bytes_in(&bs[i].key) < bytes_in(&bs[t].key),
                None => true,
            };
            if shorter {
                best = Some(i);
            }
        }
    }
    best
}

/// Fold a bucket whose title was cut short into the longer title it prefixes.
///
/// A folder can hold one file with only an ID3v1 tag among others carrying full
/// ID3v2 ones. The short title is then a strict prefix of the real one, and
/// leaving them apart strands a single track as its own "album" beside the
/// record it belongs to. Only exact prefixes within the same directory are
/// folded, so unrelated releases are never merged on a shared opening phrase.
fn fold_truncated_buckets(buckets: Vec<Bucket>) -> (out: Vec<Bucket>)
    ensures
        bucket_views(out@) == folded(bucket_views(buckets@)),
{
    let ghost all = bucket_views(buckets@);
    let mut short: Vec<(FilePath, String)> = Vec::new();
    let ghost mut names: Seq<(PathView, Seq<char>)> = Seq::empty();
    assert(all.take(0) =~= Seq::empty());
    for i in 0..buckets.len()
        invariant
            all == bucket_views(buckets@),
            names == candidates(all.take(i as int)),
            names.len() == short@.len(),
            forall|k: int|
                0 <= k < names.len() ==> (#[trigger] names[k]) == (short@[k].0@, short@[k].1@),
    {
        assert(all.take(i + 1).drop_last() =~= all.take(i as int));
        assert(all.take(i + 1).last() == buckets@[i as int]@);
        if is_cut_short(&buckets[i]) {
            short.push((buckets[i].dir.clone(), buckets[i].key.clone()));
            proof {
                names = names.push((all[i as int].dir, all[i as int].key));
            }
        }
    }
    assert(all.take(all.len() as int) =~= all);
    let mut bs = buckets;
    assert(names.take(0) =~= Seq::empty());
    for k in 0..short.len()
        invariant
            names == candidates(all),
            names.len() == short@.len(),
            forall|j: int|
                0 <= j < names.len() ==> (#[trigger] names[j]) == (short@[j].0@, short@[j].1@),
            bucket_views(bs@) == fold_each(all, names.take(k as int)),
    {
        assert(names.take(k + 1).drop_last() =~= names.take(k as int));
        let ghost now = bucket_views(bs@);
        let dir = &short[k].0;
        let key = &short[k].1;
        assert(names[k as int] == (dir@, key@));
        assert(names.take(k + 1).last() == (dir@, key@));
        let i: usize = find_bucket(&bs, dir, key);
        proof {
            lemma_fold_target(now, dir@, key@, now.len() as int);
            lemma_bucket_at(now, dir@, key@, 0);
        }
        if let Some(t) = target_of(&bs, dir, key) {
            if i < bs.len() {
                assert(t != i);
                let ghost start = bs@;
                let mut moved = bs.remove(i);
                let at: usize = if t > i {
                    t - 1
                } else {
                    t
                };
                let mut b = bs.remove(at);
                assert(b == start[t as int]);
                b.tracks.append(&mut moved.tracks);
                assert(b@ =~= extended(now[t as int], now[i as int].tracks));
                bs.insert(at, b);
                assert(bucket_views(bs@) =~= now.update(
                    t as int,
                    extended(now[t as int], now[i as int].tracks),
                ).remove(i as int));
            }
        }
    }
    assert(names.take(names.len() as int) =~= names);
    bs
}

/// The order in which an album's tracks play: by disc, then track number, then
/// path.
pub struct PlayOrder;

/// Whether a track plays before another.
pub open spec fn plays_before(a: TrackMeta, b: TrackMeta) -> bool {
    ||| a.disc_no < b.disc_no
    ||| a.disc_no == b.disc_no && a.track_no < b.track_no
    ||| a.disc_no == b.disc_no && a.track_no == b.track_no && path::path_before(a.path@, b.path@)
}

impl Order<TrackMeta> for PlayOrder {
    type Model = TrackMeta;

    open spec fn model(x: TrackMeta) -> TrackMeta {
        x
    }

    open spec fn less(a: TrackMeta, b: TrackMeta) -> bool {
        plays_before(a, b)
    }

    fn is_before(a: &TrackMeta, b: &TrackMeta) -> (r: bool) {
        if a.disc_no != b.disc_no {
            a.disc_no < b.disc_no
        } else if a.track_no != b.track_no {
            a.track_no < b.track_no
        } else {
            a.path.before(&b.path)
        }
    }
}

/// Tracks in the order in which they play.
pub open spec fn in_play_order(tracks: Seq<TrackMeta>) -> Seq<TrackMeta> {
    order::sorted::<TrackMeta, PlayOrder>(tracks)
}

fn sort_for_play(tracks: Vec<TrackMeta>) -> (out: Vec<TrackMeta>)
    ensures
        out@ == in_play_order(tracks@),
{
    let ghost before = tracks@;
    let out = stable_sort::<TrackMeta, PlayOrder>(tracks);
    assert(order::models::<TrackMeta, PlayOrder>(before) =~= before);
    assert(order::models::<TrackMeta, PlayOrder>(out@) =~= out@);
    out
}

/// The earliest year of a list of tracks.
pub open spec fn first_year(tracks: Seq<TrackMeta>) -> Option<i32>
    decreases tracks.len(),
{
    if tracks.len() == 0 {
        None
    } else {
        earlier(first_year(tracks.drop_last()), tracks.last().year)
    }
}

/// The earlier of two years, where there is one.
pub open spec fn earlier(a: Option<i32>, b: Option<i32>) -> Option<i32> {
    match (a, b) {
        (Some(x), Some(y)) => if y < x {
            b
        } else {
            a
        },
        (None, _) => b,
        (_, None) => a,
    }
}

fn earlier_of(a: Option<i32>, b: Option<i32>) -> (r: Option<i32>)
    ensures
        r == earlier(a, b),
{
    match (a, b) {
        (Some(x), Some(y)) => if y < x {
            b
        } else {
            a
        },
        (None, _) => b,
        (_, None) => a,
    }
}

/// The album titles of a list of tracks, without disc markers.
pub open spec fn titles(tracks: Seq<TrackMeta>) -> Seq<Option<Seq<char>>> {
    tracks.map_values(
        |t: TrackMeta|
            match t.album_raw {
                Some(a) => Some(util::without_disc(a@).0),
                None => None,
            },
    )
}

fn titles_of(tracks: &Vec<TrackMeta>) -> (out: Vec<Option<String>>)
    ensures
        text::opt_texts(out@) == titles(tracks@),
{
    let mut out: Vec<Option<String>> = Vec::new();
    for i in 0..tracks.len()
        invariant
            out@.len() == i,
            forall|j: int| 0 <= j < i ==> text::opt_text(#[trigger] out@[j]) == titles(tracks@)[j],
    {
        out.push(
            match &tracks[i].album_raw {
                Some(a) => Some(strip_disc_suffix(a).0),
                None => None,
            },
        );
    }
    assert(text::opt_texts(out@) =~= titles(tracks@));
    out
}

/// The release identifiers of a list of tracks.
pub open spec fn release_ids(tracks: Seq<TrackMeta>) -> Seq<Option<Seq<char>>> {
    tracks.map_values(|t: TrackMeta| text::opt_text(t.mb_album_id))
}

fn release_ids_of(tracks: &Vec<TrackMeta>) -> (out: Vec<Option<String>>)
    ensures
        text::opt_texts(out@) == release_ids(tracks@),
{
    let mut out: Vec<Option<String>> = Vec::new();
    for i in 0..tracks.len()
        invariant
            out@.len() == i,
            forall|j: int| 0 <= j < i ==> #[trigger] out@[j] == tracks@[j].mb_album_id,
    {
        out.push(tracks[i].mb_album_id.clone());
    }
    assert(text::opt_texts(out@) =~= release_ids(tracks@));
    out
}

/// The tagged album artists of a list of tracks.
pub open spec fn album_artists(tracks: Seq<TrackMeta>) -> Seq<Option<Seq<char>>> {
    tracks.map_values(|t: TrackMeta| text::opt_text(t.album_artist_raw))
}

fn album_artists_of(tracks: &Vec<TrackMeta>) -> (out: Vec<Option<String>>)
    ensures
        text::opt_texts(out@) == album_artists(tracks@),
{
    let mut out: Vec<Option<String>> = Vec::new();
    for i in 0..tracks.len()
        invariant
            out@.len() == i,
            forall|j: int| 0 <= j < i ==> #[trigger] out@[j] == tracks@[j].album_artist_raw,
    {
        out.push(tracks[i].album_artist_raw.clone());
    }
    assert(text::opt_texts(out@) =~= album_artists(tracks@));
    out
}

/// Two artist credits that name the same artist. Beyond an exact match, a name
/// sitting exactly on the ID3v1 length limit is a cut-short spelling of a longer
/// one it prefixes.
pub open spec fn credits_match(a: Seq<char>, b: Seq<char>) -> bool {
    ||| util::norm(a) == util::norm(b)
    ||| truncated(a) && util::norm(a).is_prefix_of(util::norm(b))
    ||| truncated(b) && util::norm(b).is_prefix_of(util::norm(a))
}

/// Whether two artist credits name the same artist.
///
/// Without the rule on truncated names a single ID3v1-only track turns its album
/// into a bogus compilation. The truncation check keeps it tight: "Bob Dylan"
/// never absorbs "Bob Dylan & The Band".
pub fn same_artist(a: &str, b: &str) -> (r: bool)
    ensures
        r == credits_match(a@, b@),
{
    let na = chars_of(&normalize(a));
    let nb = chars_of(&normalize(b));
    if text::same_chars(&na, &nb) {
        return true;
    }
    (looks_truncated(a) && starts_with(&nb, &na)) || (looks_truncated(b) && starts_with(&na, &nb))
}

/// The first name at or after `i` that credits the same artist.
pub open spec fn credit_at(seen: Seq<Seq<char>>, name: Seq<char>, i: int) -> int
    decreases seen.len() - i,
{
    if i >= seen.len() || credits_match(seen[i], name) {
        i
    } else {
        credit_at(seen, name, i + 1)
    }
}

/// The artists seen, with one more credit: whichever spelling of one artist is
/// longer is kept.
pub open spec fn credited(seen: Seq<Seq<char>>, name: Seq<char>) -> Seq<Seq<char>> {
    let i = credit_at(seen, name, 0);
    if i >= seen.len() {
        seen.push(name)
    } else if text::byte_len(name) > text::byte_len(seen[i]) {
        seen.update(i, name)
    } else {
        seen
    }
}

/// The artists that a list of tracks credits.
pub open spec fn artists(tracks: Seq<TrackMeta>) -> Seq<Seq<char>>
    decreases tracks.len(),
{
    if tracks.len() == 0 {
        Seq::empty()
    } else {
        let before = artists(tracks.drop_last());
        match tracks.last().artist_raw {
            Some(name) if !text::is_blank(name@) => credited(before, name@),
            _ => before,
        }
    }
}

fn artists_of(tracks: &Vec<TrackMeta>) -> (seen: Vec<String>)
    ensures
        path::texts(seen@) == artists(tracks@),
{
    let mut seen: Vec<String> = Vec::new();
    assert(path::texts(seen@) =~= artists(tracks@.take(0)));
    for i in 0..tracks.len()
        invariant
            path::texts(seen@) == artists(tracks@.take(i as int)),
    {
        assert(tracks@.take(i + 1).drop_last() =~= tracks@.take(i as int));
        if let Some(name) = &tracks[i].artist_raw {
            if !text::blank(name) {
                let ghost before = path::texts(seen@);
                let mut k: usize = 0;
                while k < seen.len() && !same_artist(&seen[k], name)
                    invariant
                        k <= seen@.len(),
                        before == path::texts(seen@),
                        credit_at(before, name@, 0) == credit_at(before, name@, k as int),
                    decreases seen@.len() - k,
                {
                    k += 1;
                }
                if k == seen.len() {
                    seen.push(name.clone());
                    assert(path::texts(seen@) =~= before.push(name@));
                } else if bytes_in(name) > bytes_in(&seen[k]) {
                    seen.set(k, name.clone());
                    assert(path::texts(seen@) =~= before.update(k as int, name@));
                }
            }
        }
    }
    assert(tracks@.take(tracks@.len() as int) =~= tracks@);
    seen
}

/// The paths of a list of roots.
pub open spec fn root_views(roots: Seq<FilePath>) -> Seq<PathView> {
    roots.map_values(|r: FilePath| r@)
}

/// The artist folder that contains an album.
pub open spec fn parent_artist(dir: PathView, roots: Seq<PathView>) -> Option<Seq<char>> {
    match dir.parent() {
        Some(parent) => if roots.contains(parent) {
            None
        } else {
            match parent.file_name() {
                Some(name) if !text::is_blank(name) => Some(name),
                _ => None,
            }
        },
        None => None,
    }
}

fn is_root(dir: &FilePath, roots: &[FilePath]) -> (r: bool)
    ensures
        r == root_views(roots@).contains(dir@),
{
    for i in 0..roots.len()
        invariant
            forall|j: int| 0 <= j < i ==> root_views(roots@)[j] != dir@,
    {
        if roots[i].same(dir) {
            assert(root_views(roots@)[i as int] == dir@);
            return true;
        }
    }
    false
}

/// The artist folder containing an album, for libraries laid out as
/// `<root>/<artist>/<album>`.
///
/// Nothing when the album sits directly in a root, since the root's own name
/// ("Music") says nothing about who made the record.
fn artist_from_parent_dir(dir: &FilePath, roots: &[FilePath]) -> (r: Option<String>)
    ensures
        text::opt_text(r) == parent_artist(dir@, root_views(roots@)),
{
    match dir.parent() {
        Some(parent) => {
            if is_root(&parent, roots) {
                return None;
            }
            match parent.file_name() {
                Some(name) => if !text::blank(&name) {
                    Some(name)
                } else {
                    None
                },
                None => None,
            }
        },
        None => None,
    }
}

/// A directory's path below the first root, at or after `i`, that contains it;
/// its whole path when none does.
pub open spec fn relative_to(dir: PathView, roots: Seq<PathView>, i: int) -> Seq<char>
    decreases roots.len() - i,
{
    if i >= roots.len() {
        dir.text()
    } else {
        match dir.strip_prefix(roots[i]) {
            Some(rest) => rest.text(),
            None => relative_to(dir, roots, i + 1),
        }
    }
}

/// A directory expressed relative to whichever library root contains it.
fn relative_dir(dir: &FilePath, roots: &[FilePath]) -> (r: String)
    ensures
        r@ == relative_to(dir@, root_views(roots@), 0),
{
    let mut i: usize = 0;
    while i < roots.len()
        invariant
            i <= roots@.len(),
            relative_to(dir@, root_views(roots@), 0) == relative_to(
                dir@,
                root_views(roots@),
                i as int,
            ),
        decreases roots@.len() - i,
    {
        assert(root_views(roots@)[i as int] == roots@[i as int]@);
        if let Some(rest) = dir.strip_prefix(&roots[i]) {
            return rest.to_text();
        }
        i += 1;
    }
    dir.to_text()
}

/// Identity key for an album that has nothing but its folder to go on.
///
/// The path is recorded *relative to the library root*. An absolute path would
/// tie the album's identity to where the library happens to be mounted, so
/// moving it would orphan the album and everything attached to it.
pub open spec fn folder_identity(dir: PathView, roots: Seq<PathView>) -> Seq<char> {
    "dir:"@ + relative_to(dir, roots, 0)
}

fn directory_key(dir: &FilePath, roots: &[FilePath]) -> (r: String)
    ensures
        r@ == folder_identity(dir@, root_views(roots@)),
{
    let mut out = chars_of("dir:");
    append_text(&mut out, &relative_dir(dir, roots));
    text_of(&out)
}

/// The files that lie in a directory.
pub struct Listing {
    pub dir: FilePath,
    pub files: Vec<FilePath>,
}

/// What a [`Listing`] holds.
pub struct ListingView {
    pub dir: PathView,
    pub files: Seq<PathView>,
}

impl View for Listing {
    type V = ListingView;

    open spec fn view(&self) -> ListingView {
        ListingView { dir: self.dir@, files: root_views(self.files@) }
    }
}

pub open spec fn listing_views(s: Seq<Listing>) -> Seq<ListingView> {
    s.map_values(|l: Listing| l@)
}

/// Cover art names looked for in the album directory, in preference order.
pub open spec fn cover_stems() -> Seq<Seq<char>> {
    seq!["cover"@, "folder"@, "front"@, "album"@, "albumart"@, "art"@]
}

/// Cover art extensions, in preference order.
pub open spec fn cover_extensions() -> Seq<Seq<char>> {
    seq!["jpg"@, "jpeg"@, "png"@, "webp"@, "avif"@]
}

/// A file named `stem` with extension `ext`, ASCII case aside.
pub open spec fn named(file: PathView, stem: Seq<char>, ext: Seq<char>) -> bool {
    &&& file.file_stem() matches Some(s) && text::ascii_lowered(s) == stem
    &&& file.extension() matches Some(e) && text::ascii_lowered(e) == ext
}

/// The first file at or after `i` with this name.
pub open spec fn file_named(
    files: Seq<PathView>,
    stem: Seq<char>,
    ext: Seq<char>,
    i: int,
) -> Option<PathView>
    decreases files.len() - i,
{
    if i >= files.len() {
        None
    } else if named(files[i], stem, ext) {
        Some(files[i])
    } else {
        file_named(files, stem, ext, i + 1)
    }
}

/// The first cover among the names and extensions from the pair `(a, b)` on.
/// Preference is by name first, so `cover.jpg` beats `art.png`.
pub open spec fn cover_from(files: Seq<PathView>, a: int, b: int) -> Option<PathView>
    decreases cover_stems().len() - a, cover_extensions().len() - b,
{
    if a < 0 || b < 0 || a >= cover_stems().len() {
        None
    } else if b >= cover_extensions().len() {
        cover_from(files, a + 1, 0)
    } else {
        match file_named(files, cover_stems()[a], cover_extensions()[b], 0) {
            Some(hit) => Some(hit),
            None => cover_from(files, a, b + 1),
        }
    }
}

/// The cover image among the files of a directory, by the first listing of it
/// at or after `i`.
pub open spec fn cover_of(dir: PathView, listings: Seq<ListingView>, i: int) -> Option<PathView>
    decreases listings.len() - i,
{
    if i >= listings.len() {
        None
    } else if listings[i].dir == dir {
        cover_from(listings[i].files, 0, 0)
    } else {
        cover_of(dir, listings, i + 1)
    }
}

fn is_named(file: &FilePath, stem: &str, ext: &str) -> (r: bool)
    ensures
        r == named(file@, stem@, ext@),
{
    match file.file_stem() {
        Some(s) => match file.extension() {
            Some(e) => text::same_chars(&lower_ascii_all(&chars_of(&s)), &chars_of(stem))
                && text::same_chars(&lower_ascii_all(&chars_of(&e)), &chars_of(ext)),
            None => false,
        },
        None => false,
    }
}

fn find_named(files: &Vec<FilePath>, stem: &str, ext: &str) -> (r: Option<FilePath>)
    ensures
        model::opt_path(r) == file_named(root_views(files@), stem@, ext@, 0),
{
    let mut i: usize = 0;
    while i < files.len()
        invariant
            i <= files@.len(),
            file_named(root_views(files@), stem@, ext@, 0) == file_named(
                root_views(files@),
                stem@,
                ext@,
                i as int,
            ),
        decreases files@.len() - i,
    {
        assert(root_views(files@)[i as int] == files@[i as int]@);
        if is_named(&files[i], stem, ext) {
            return Some(files[i].clone());
        }
        i += 1;
    }
    None
}

/// Look for a cover image sitting next to the audio files.
pub fn find_cover(dir: &FilePath, listings: &[Listing]) -> (r: Option<FilePath>)
    ensures
        model::opt_path(r) == cover_of(dir@, listing_views(listings@), 0),
{
    let mut i: usize = 0;
    while i < listings.len() && !listings[i].dir.same(dir)
        invariant
            i <= listings@.len(),
            cover_of(dir@, listing_views(listings@), 0) == cover_of(
                dir@,
                listing_views(listings@),
                i as int,
            ),
        decreases listings@.len() - i,
    {
        assert(listing_views(listings@)[i as int] == listings@[i as int]@);
        i += 1;
    }
    if i == listings.len() {
        return None;
    }
    assert(listing_views(listings@)[i as int] == listings@[i as int]@);
    let files = &listings[i].files;
    let ghost all = root_views(files@);
    let stems: Vec<&str> = vec!["cover", "folder", "front", "album", "albumart", "art"];
    let exts: Vec<&str> = vec!["jpg", "jpeg", "png", "webp", "avif"];
    assert(stems@.len() == cover_stems().len());
    assert(exts@.len() == cover_extensions().len());
    for a in 0..stems.len()
        invariant
            all == root_views(files@),
            stems@.len() == cover_stems().len(),
            exts@.len() == cover_extensions().len(),
            forall|k: int| 0 <= k < stems@.len() ==> (#[trigger] stems@[k])@ == cover_stems()[k],
            forall|k: int| 0 <= k < exts@.len() ==> (#[trigger] exts@[k])@ == cover_extensions()[k],
            cover_of(dir@, listing_views(listings@), 0) == cover_from(all, a as int, 0),
    {
        for b in 0..exts.len()
            invariant
                a < stems@.len(),
                all == root_views(files@),
                stems@.len() == cover_stems().len(),
                exts@.len() == cover_extensions().len(),
                forall|k: int| 0 <= k < stems@.len() ==> (#[trigger] stems@[k])@ == cover_stems()[k],
                forall|k: int|
                    0 <= k < exts@.len() ==> (#[trigger] exts@[k])@ == cover_extensions()[k],
                cover_of(dir@, listing_views(listings@), 0) == cover_from(all, a as int, b as int),
        {
            let hit = find_named(files, stems[a], exts[b]);
            if hit.is_some() {
                return hit;
            }
        }
    }
    None
}

/// Who an album is by, and whether it is a compilation, in descending order of
/// trustworthiness. Getting this wrong is what shatters a Various Artists
/// compilation into a dozen one-track "albums", so the unanimity check comes
/// before any guessing.
pub open spec fn album_credit(
    tagged: Option<Seq<char>>,
    flagged: bool,
    credited: Seq<Seq<char>>,
    dir: PathView,
    roots: Seq<PathView>,
) -> (Seq<char>, bool) {
    match tagged {
        Some(a) => (a, flagged || util::norm(a) == "various artists"@),
        None => if flagged {
            ("Various Artists"@, true)
        } else if credited.len() == 1 {
            (credited[0], false)
        } else if credited.len() == 0 {
            match parent_artist(dir, roots) {
                Some(name) => (name, false),
                None => ("Unknown Artist"@, false),
            }
        } else {
            ("Various Artists"@, true)
        },
    }
}

/// The identity of an album known by artist and title. A title sitting exactly
/// on the ID3v1 field limit has probably been cut short, and two unrelated
/// releases can share it, so such keys are scoped to the directory: worst case
/// the album fails to merge, which is the safe direction to fail in.
pub open spec fn title_identity(
    artist: Seq<char>,
    title: Seq<char>,
    year: Option<i32>,
    dir: PathView,
    roots: Seq<PathView>,
) -> Seq<char> {
    let year_part = match year {
        Some(y) => text::int_text(y as int),
        None => Seq::empty(),
    };
    let key = "aa:"@ + util::norm(artist) + "|"@ + util::norm(title) + "|"@ + year_part;
    if truncated(title) {
        key + "|dir:"@ + relative_to(dir, roots, 0)
    } else {
        key
    }
}

/// What an album's identity rests on.
pub open spec fn identity_source(mb: Option<Seq<char>>, has_album_tag: bool) -> IdentitySource {
    if mb is Some {
        IdentitySource::MusicBrainz
    } else if has_album_tag {
        IdentitySource::ArtistTitle
    } else {
        IdentitySource::Directory
    }
}

/// Some track is flagged as part of a compilation.
pub open spec fn any_compilation(tracks: Seq<TrackMeta>) -> bool {
    exists|i: int| 0 <= i < tracks.len() && (#[trigger] tracks[i]).compilation
}

/// Some track has an album tag.
pub open spec fn any_album_tag(tracks: Seq<TrackMeta>) -> bool {
    exists|i: int| 0 <= i < tracks.len() && (#[trigger] tracks[i]).album_raw is Some
}

/// The album that a directory's tracks make up.
pub open spec fn resolved(
    dir: PathView,
    tracks: Seq<TrackMeta>,
    roots: Seq<PathView>,
    listings: Seq<ListingView>,
) -> DraftView {
    let ts = in_play_order(tracks);
    let title = match util::majority_of(titles(ts)) {
        Some(t) => t,
        None => match dir.file_name() {
            Some(name) => name,
            None => "Unknown Album"@,
        },
    };
    let mb = util::majority_of(release_ids(ts));
    let year = first_year(ts);
    let credit = album_credit(
        util::majority_of(album_artists(ts)),
        any_compilation(ts),
        artists(ts),
        dir,
        roots,
    );
    let identity = identity_source(mb, any_album_tag(ts));
    DraftView {
        group_key: match identity {
            IdentitySource::MusicBrainz => "mb:"@ + mb.unwrap(),
            IdentitySource::ArtistTitle => title_identity(credit.0, title, year, dir, roots),
            IdentitySource::Directory => folder_identity(dir, roots),
        },
        identity,
        title,
        album_artist: credit.0,
        year,
        mb_album_id: mb,
        dir_path: dir,
        art_path: cover_of(dir, listings, 0),
        is_compilation: credit.1,
        source_dirs: 1,
        tracks: ts,
    }
}

fn has_compilation(tracks: &Vec<TrackMeta>) -> (r: bool)
    ensures
        r == any_compilation(tracks@),
{
    for i in 0..tracks.len()
        invariant
            forall|j: int| 0 <= j < i ==> !(#[trigger] tracks@[j]).compilation,
    {
        if tracks[i].compilation {
            return true;
        }
    }
    false
}

fn has_album_tag(tracks: &Vec<TrackMeta>) -> (r: bool)
    ensures
        r == any_album_tag(tracks@),
{
    for i in 0..tracks.len()
        invariant
            forall|j: int| 0 <= j < i ==> (#[trigger] tracks@[j]).album_raw is None,
    {
        if tracks[i].album_raw.is_some() {
            return true;
        }
    }
    false
}

fn earliest_year(tracks: &Vec<TrackMeta>) -> (r: Option<i32>)
    ensures
        r == first_year(tracks@),
{
    let mut year: Option<i32> = None;
    for i in 0..tracks.len()
        invariant
            year == first_year(tracks@.take(i as int)),
    {
        assert(tracks@.take(i + 1).drop_last() =~= tracks@.take(i as int));
        year = earlier_of(year, tracks[i].year);
    }
    assert(tracks@.take(tracks@.len() as int) =~= tracks@);
    year
}

fn resolve_artist(
    tagged: Option<String>,
    flagged: bool,
    names: &Vec<String>,
    dir: &FilePath,
    roots: &[FilePath],
) -> (r: (String, bool))
    ensures
        (r.0@, r.1) == album_credit(
            text::opt_text(tagged),
            flagged,
            path::texts(names@),
            dir@,
            root_views(roots@),
        ),
{
    match tagged {
        Some(a) => {
            let comp = flagged || same_text(&normalize(&a), "various artists");
            (a, comp)
        },
        None => if flagged {
            ("Various Artists".to_owned(), true)
        } else if names.len() == 1 {
            (names[0].clone(), false)
        } else if names.len() == 0 {
            match artist_from_parent_dir(dir, roots) {
                Some(name) => (name, false),
                None => ("Unknown Artist".to_owned(), false),
            }
        } else {
            ("Various Artists".to_owned(), true)
        },
    }
}

fn title_key_of(
    artist: &str,
    title: &str,
    year: Option<i32>,
    dir: &FilePath,
    roots: &[FilePath],
) -> (r: String)
    ensures
        r@ == title_identity(artist@, title@, year, dir@, root_views(roots@)),
{
    let mut key = chars_of("aa:");
    append_text(&mut key, &normalize(artist));
    append_text(&mut key, "|");
    append_text(&mut key, &normalize(title));
    append_text(&mut key, "|");
    match year {
        Some(y) => append_chars(&mut key, &int_chars(y as i64)),
        None => {
            assert(key@ + Seq::<char>::empty() =~= key@);
        },
    }
    if looks_truncated(title) {
        append_text(&mut key, "|dir:");
        append_text(&mut key, &relative_dir(dir, roots));
    }
    text_of(&key)
}

/// Decide an album's title, artist, year, and identity from its tracks.
fn resolve_album(
    dir: FilePath,
    tracks: Vec<TrackMeta>,
    roots: &[FilePath],
    listings: &[Listing],
) -> (r: AlbumDraft)
    ensures
        r@ == resolved(dir@, tracks@, root_views(roots@), listing_views(listings@)),
{
    let tracks = sort_for_play(tracks);
    // Titles are compared and stored without their disc markers, so a merged
    // double album is named "Forty Licks", not "Forty Licks ( Disc 2 )".
    let title = match majority(titles_of(&tracks)) {
        Some(t) => t,
        None => match dir.file_name() {
            Some(name) => name,
            None => "Unknown Album".to_owned(),
        },
    };
    let mb_album_id = majority(release_ids_of(&tracks));
    let year = earliest_year(&tracks);
    let names = artists_of(&tracks);
    let (album_artist, is_compilation) = resolve_artist(
        majority(album_artists_of(&tracks)),
        has_compilation(&tracks),
        &names,
        &dir,
        roots,
    );
    // Prefer an identity that survives the folder being moved or renamed.
    let (group_key, identity) = match &mb_album_id {
        Some(id) => {
            let mut key = chars_of("mb:");
            append_text(&mut key, id);
            (text_of(&key), IdentitySource::MusicBrainz)
        },
        None => if has_album_tag(&tracks) {
            (title_key_of(&album_artist, &title, year, &dir, roots), IdentitySource::ArtistTitle)
        } else {
            (directory_key(&dir, roots), IdentitySource::Directory)
        },
    };
    let art_path = find_cover(&dir, listings);
    AlbumDraft {
        group_key,
        identity,
        title,
        album_artist,
        year,
        mb_album_id,
        dir_path: dir,
        art_path,
        is_compilation,
        source_dirs: 1,
        tracks,
    }
}

pub open spec fn draft_views(s: Seq<AlbumDraft>) -> Seq<DraftView> {
    s.map_values(|d: AlbumDraft| d@)
}

/// Every bucket resolved to an album.
pub open spec fn resolved_all(
    bs: Seq<BucketView>,
    roots: Seq<PathView>,
    listings: Seq<ListingView>,
) -> Seq<DraftView> {
    bs.map_values(|b: BucketView| resolved(b.dir, b.tracks, roots, listings))
}

fn resolve_all(bs: Vec<Bucket>, roots: &[FilePath], listings: &[Listing]) -> (out: Vec<AlbumDraft>)
    ensures
        draft_views(out@) == resolved_all(
            bucket_views(bs@),
            root_views(roots@),
            listing_views(listings@),
        ),
{
    let ghost all = bs@;
    let ghost goal = resolved_all(
        bucket_views(all),
        root_views(roots@),
        listing_views(listings@),
    );
    let mut out: Vec<AlbumDraft> = Vec::new();
    for b in it: bs.into_iter()
        invariant
            it.seq() == all,
            goal == resolved_all(
                bucket_views(all),
                root_views(roots@),
                listing_views(listings@),
            ),
            out@.len() == it.index(),
            forall|k: int| 0 <= k < it.index() ==> (#[trigger] out@[k])@ == goal[k],
    {
        assert(bucket_views(all)[it.index() as int] == b@);
        out.push(resolve_album(b.dir, b.tracks, roots, listings));
    }
    assert(draft_views(out@) =~= goal);
    out
}

/// How many sibling folders may be merged into a single release.
///
/// Two or three named folders is an ordinary double or triple album. Beyond
/// that, a shared album tag is far more likely to be a generic credit than a
/// real album title: classical rips routinely put a performer in the album
/// field across a whole box set of separate works. Those are better off as one
/// album per folder, so each work can be played alone.
///
/// This only governs *sibling* folders. Discs in `CD1`/`CD2` subdirectories
/// collapse into one bucket earlier and are unaffected by this limit.
pub const MAX_MERGED_FOLDERS: usize = 4;

/// The first group at or after `i` with this identity.
pub open spec fn group_at(groups: Seq<Seq<DraftView>>, key: Seq<char>, i: int) -> int
    decreases groups.len() - i,
{
    if i >= groups.len() || groups[i][0].group_key == key {
        i
    } else {
        group_at(groups, key, i + 1)
    }
}

/// Drafts by identity, in the order in which each identity first occurs.
pub open spec fn by_identity(ds: Seq<DraftView>) -> Seq<Seq<DraftView>>
    decreases ds.len(),
{
    if ds.len() == 0 {
        Seq::empty()
    } else {
        let before = by_identity(ds.drop_last());
        let i = group_at(before, ds.last().group_key, 0);
        if i < before.len() {
            before.update(i, before[i].push(ds.last()))
        } else {
            before.push(seq![ds.last()])
        }
    }
}

/// The order of the folders of one release.
pub struct FolderOrder;

impl Order<AlbumDraft> for FolderOrder {
    type Model = DraftView;

    open spec fn model(x: AlbumDraft) -> DraftView {
        x@
    }

    open spec fn less(a: DraftView, b: DraftView) -> bool {
        path::path_before(a.dir_path, b.dir_path)
    }

    fn is_before(a: &AlbumDraft, b: &AlbumDraft) -> (r: bool) {
        a.dir_path.before(&b.dir_path)
    }
}

/// A draft as its own album, named after its folder: the folder name is the most
/// informative thing available when a shared album tag turns out to be a credit
/// rather than a title.
pub open spec fn retitled(d: DraftView, roots: Seq<PathView>) -> DraftView {
    DraftView {
        title: match d.dir_path.file_name() {
            Some(name) => name,
            None => d.title,
        },
        group_key: folder_identity(d.dir_path, roots),
        identity: IdentitySource::Directory,
        source_dirs: 1,
        ..d
    }
}

fn retitle_from_folder(draft: AlbumDraft, roots: &[FilePath]) -> (r: AlbumDraft)
    ensures
        r@ == retitled(draft@, root_views(roots@)),
{
    let mut d = draft;
    if let Some(name) = d.dir_path.file_name() {
        d.title = name;
    }
    d.group_key = directory_key(&d.dir_path, roots);
    d.identity = IdentitySource::Directory;
    d.source_dirs = 1;
    d
}

/// The components two paths share from the front.
pub open spec fn shared_parts(a: Seq<Seq<char>>, b: Seq<Seq<char>>) -> Seq<Seq<char>>
    decreases a.len(),
{
    if a.len() > 0 && b.len() > 0 && a[0] == b[0] {
        seq![a[0]] + shared_parts(a.drop_first(), b.drop_first())
    } else {
        Seq::empty()
    }
}

/// The path two paths share from the front; the empty path when they share
/// nothing.
pub open spec fn shared_path(a: PathView, b: PathView) -> PathView {
    if a.rooted == b.rooted {
        PathView { rooted: a.rooted, parts: shared_parts(a.parts, b.parts) }
    } else {
        PathView { rooted: false, parts: Seq::empty() }
    }
}

pub open spec fn shared_by_all(paths: Seq<PathView>) -> PathView
    decreases paths.len(),
{
    if paths.len() <= 1 {
        paths[0]
    } else {
        shared_path(shared_by_all(paths.drop_last()), paths.last())
    }
}

/// The deepest directory that contains all of `paths`; the first of them when
/// they share nothing.
pub open spec fn ancestor(paths: Seq<PathView>) -> PathView {
    let common = shared_by_all(paths);
    if paths.len() == 0 {
        PathView { rooted: false, parts: Seq::empty() }
    } else if !common.rooted && common.parts.len() == 0 {
        paths[0]
    } else {
        common
    }
}

fn shared_of(a: &FilePath, b: &FilePath) -> (r: FilePath)
    ensures
        r@ == shared_path(a@, b@),
{
    let mut parts: Vec<String> = Vec::new();
    if a.rooted != b.rooted {
        assert(path::texts(parts@) =~= Seq::empty());
        return FilePath { rooted: false, parts };
    }
    let mut i: usize = 0;
    let ghost goal = shared_parts(a@.parts, b@.parts);
    assert(a@.parts.skip(0) =~= a@.parts);
    assert(b@.parts.skip(0) =~= b@.parts);
    assert(path::texts(parts@) + goal =~= goal);
    while i < a.parts.len() && i < b.parts.len() && same_text(&a.parts[i], &b.parts[i])
        invariant
            i <= a@.parts.len(),
            i <= b@.parts.len(),
            goal == path::texts(parts@) + shared_parts(
                a@.parts.skip(i as int),
                b@.parts.skip(i as int),
            ),
        decreases a@.parts.len() - i,
    {
        let ghost before = path::texts(parts@);
        assert(a@.parts[i as int] == a.parts@[i as int]@);
        assert(b@.parts[i as int] == b.parts@[i as int]@);
        assert(a@.parts.skip(i as int).drop_first() =~= a@.parts.skip(i + 1));
        assert(b@.parts.skip(i as int).drop_first() =~= b@.parts.skip(i + 1));
        parts.push(a.parts[i].clone());
        assert(path::texts(parts@) =~= before.push(a@.parts[i as int]));
        assert(before + (seq![a@.parts[i as int]] + shared_parts(
            a@.parts.skip(i + 1),
            b@.parts.skip(i + 1),
        )) =~= path::texts(parts@) + shared_parts(a@.parts.skip(i + 1), b@.parts.skip(i + 1)));
        i += 1;
    }
    assert(path::texts(parts@) + Seq::<Seq<char>>::empty() =~= path::texts(parts@));
    assert(i < a@.parts.len() ==> a@.parts[i as int] == a.parts@[i as int]@);
    assert(i < b@.parts.len() ==> b@.parts[i as int] == b.parts@[i as int]@);
    FilePath { rooted: a.rooted, parts }
}

/// The directories of a list of drafts.
pub open spec fn dirs(g: Seq<DraftView>) -> Seq<PathView> {
    g.map_values(|d: DraftView| d.dir_path)
}

fn common_ancestor(g: &Vec<AlbumDraft>) -> (r: FilePath)
    requires
        g@.len() > 0,
    ensures
        r@ == ancestor(dirs(draft_views(g@))),
{
    let ghost paths = dirs(draft_views(g@));
    let mut common = g[0].dir_path.clone();
    assert(paths.take(1)[0] == common@);
    for i in 1..g.len()
        invariant
            g@.len() > 0,
            paths == dirs(draft_views(g@)),
            common@ == shared_by_all(paths.take(i as int)),
    {
        assert(paths.take(i + 1).drop_last() =~= paths.take(i as int));
        assert(paths[i as int] == g@[i as int].dir_path@);
        common = shared_of(&common, &g[i].dir_path);
    }
    assert(paths.take(paths.len() as int) =~= paths);
    if !common.rooted && common.parts.len() == 0 {
        g[0].dir_path.clone()
    } else {
        common
    }
}

/// No disc tag or disc folder distinguishes the tracks of these drafts.
pub open spec fn undifferentiated(g: Seq<DraftView>) -> bool {
    forall|i: int, j: int|
        #![trigger g[i].tracks[j]]
        0 <= i < g.len() && 0 <= j < g[i].tracks.len() ==> g[i].tracks[j].disc_no == 1
}

fn is_undifferentiated(g: &Vec<AlbumDraft>) -> (r: bool)
    ensures
        r == undifferentiated(draft_views(g@)),
{
    let ghost all = draft_views(g@);
    for i in 0..g.len()
        invariant
            all == draft_views(g@),
            forall|k: int, j: int|
                #![trigger all[k].tracks[j]]
                0 <= k < i && 0 <= j < all[k].tracks.len() ==> all[k].tracks[j].disc_no == 1,
    {
        assert(all[i as int].tracks == g@[i as int].tracks@);
        let count: usize = g[i].tracks.len();
        for j in 0..count
            invariant
                i < g@.len(),
                count == g@[i as int].tracks@.len(),
                all == draft_views(g@),
                all[i as int].tracks == g@[i as int].tracks@,
                forall|l: int|
                    0 <= l < j ==> (#[trigger] all[i as int].tracks[l]).disc_no == 1,
        {
            if g[i].tracks[j].disc_no != 1 {
                assert(all[i as int].tracks[j as int].disc_no != 1);
                return false;
            }
        }
    }
    true
}

/// Tracks moved to one disc.
pub open spec fn on_disc(tracks: Seq<TrackMeta>, disc: u32) -> Seq<TrackMeta> {
    tracks.map_values(|t: TrackMeta| TrackMeta { disc_no: disc, ..t })
}

/// The tracks of all drafts. When nothing else tells the discs apart, the
/// directories are the only ordering information available, and each becomes a
/// disc; otherwise every disc claims track 1 and the album has no total order.
pub open spec fn fused_tracks(g: Seq<DraftView>, renumber: bool) -> Seq<TrackMeta>
    decreases g.len(),
{
    if g.len() == 0 {
        Seq::empty()
    } else {
        fused_tracks(g.drop_last(), renumber) + if renumber {
            on_disc(g.last().tracks, g.len() as u32)
        } else {
            g.last().tracks
        }
    }
}

/// The cover of the first draft that has one.
pub open spec fn first_cover(g: Seq<DraftView>) -> Option<PathView>
    decreases g.len(),
{
    if g.len() == 0 {
        None
    } else if first_cover(g.drop_last()) is Some {
        first_cover(g.drop_last())
    } else {
        g.last().art_path
    }
}

/// The earliest year of a list of drafts.
pub open spec fn group_year(g: Seq<DraftView>) -> Option<i32>
    decreases g.len(),
{
    if g.len() == 0 {
        None
    } else {
        earlier(group_year(g.drop_last()), g.last().year)
    }
}

/// Some draft is a compilation.
pub open spec fn group_compilation(g: Seq<DraftView>) -> bool
    decreases g.len(),
{
    g.len() > 0 && (group_compilation(g.drop_last()) || g.last().is_compilation)
}

/// The one album that folders of one release make up.
pub open spec fn fused(g: Seq<DraftView>) -> DraftView {
    DraftView {
        dir_path: ancestor(dirs(g)),
        art_path: first_cover(g),
        is_compilation: group_compilation(g),
        year: group_year(g),
        source_dirs: g.len(),
        tracks: in_play_order(fused_tracks(g, undifferentiated(g))),
        ..g[0]
    }
}

/// What drafts of one identity become.
pub open spec fn merged_group(g: Seq<DraftView>, roots: Seq<PathView>) -> Seq<DraftView> {
    let s = order::sorted::<AlbumDraft, FolderOrder>(g);
    if g.len() == 1 {
        g
    } else if s.len() > MAX_MERGED_FOLDERS {
        s.map_values(|d: DraftView| retitled(d, roots))
    } else {
        seq![fused(s)]
    }
}

pub open spec fn merged_groups(groups: Seq<Seq<DraftView>>, roots: Seq<PathView>) -> Seq<DraftView>
    decreases groups.len(),
{
    if groups.len() == 0 {
        Seq::empty()
    } else {
        merged_groups(groups.drop_last(), roots) + merged_group(groups.last(), roots)
    }
}

fn renumbered(tracks: Vec<TrackMeta>, disc: u32) -> (out: Vec<TrackMeta>)
    ensures
        out@ == on_disc(tracks@, disc),
{
    let ghost all = tracks@;
    let mut out: Vec<TrackMeta> = Vec::new();
    for t in it: tracks.into_iter()
        invariant
            it.seq() == all,
            out@.len() == it.index(),
            forall|k: int| 0 <= k < it.index() ==> #[trigger] out@[k] == on_disc(all, disc)[k],
    {
        let mut t = t;
        t.disc_no = disc;
        out.push(t);
    }
    assert(out@ =~= on_disc(all, disc));
    out
}

fn cover_of_group(g: &Vec<AlbumDraft>) -> (r: Option<FilePath>)
    ensures
        model::opt_path(r) == first_cover(draft_views(g@)),
{
    let ghost all = draft_views(g@);
    let mut r: Option<FilePath> = None;
    for i in 0..g.len()
        invariant
            all == draft_views(g@),
            model::opt_path(r) == first_cover(all.take(i as int)),
    {
        assert(all.take(i + 1).drop_last() =~= all.take(i as int));
        assert(all[i as int] == g@[i as int]@);
        if r.is_none() {
            r = match &g[i].art_path {
                Some(p) => Some(p.clone()),
                None => None,
            };
        }
    }
    assert(all.take(all.len() as int) =~= all);
    r
}

fn year_of_group(g: &Vec<AlbumDraft>) -> (r: Option<i32>)
    ensures
        r == group_year(draft_views(g@)),
{
    let ghost all = draft_views(g@);
    let mut r: Option<i32> = None;
    for i in 0..g.len()
        invariant
            all == draft_views(g@),
            r == group_year(all.take(i as int)),
    {
        assert(all.take(i + 1).drop_last() =~= all.take(i as int));
        assert(all[i as int] == g@[i as int]@);
        r = earlier_of(r, g[i].year);
    }
    assert(all.take(all.len() as int) =~= all);
    r
}

fn group_is_compilation(g: &Vec<AlbumDraft>) -> (r: bool)
    ensures
        r == group_compilation(draft_views(g@)),
{
    let ghost all = draft_views(g@);
    let mut r = false;
    for i in 0..g.len()
        invariant
            all == draft_views(g@),
            r == group_compilation(all.take(i as int)),
    {
        assert(all.take(i + 1).drop_last() =~= all.take(i as int));
        assert(all[i as int] == g@[i as int]@);
        r = r || g[i].is_compilation;
    }
    assert(all.take(all.len() as int) =~= all);
    r
}

fn fuse(g: Vec<AlbumDraft>) -> (r: AlbumDraft)
    requires
        1 <= g@.len() <= MAX_MERGED_FOLDERS,
    ensures
        r@ == fused(draft_views(g@)),
{
    let ghost all = draft_views(g@);
    let ghost start = g@;
    let renumber = is_undifferentiated(&g);
    let dir_path = common_ancestor(&g);
    let art_path = cover_of_group(&g);
    let is_compilation = group_is_compilation(&g);
    let year = year_of_group(&g);
    let source_dirs: usize = g.len();
    let group_key = g[0].group_key.clone();
    let identity = g[0].identity;
    let title = g[0].title.clone();
    let album_artist = g[0].album_artist.clone();
    let mb_album_id = g[0].mb_album_id.clone();
    let mut tracks: Vec<TrackMeta> = Vec::new();
    let mut disc: u32 = 0;
    assert(all.take(0) =~= Seq::empty());
    assert(tracks@ =~= fused_tracks(all.take(0), renumber));
    for d in it: g.into_iter()
        invariant
            it.seq() == start,
            all == draft_views(start),
            start.len() <= MAX_MERGED_FOLDERS,
            disc == it.index(),
            tracks@ == fused_tracks(all.take(it.index() as int), renumber),
    {
        let ghost n = it.index() as int;
        assert(all.take(n + 1).drop_last() =~= all.take(n));
        assert(all.take(n + 1).last() == d@);
        disc += 1;
        let mut more = if renumber {
            renumbered(d.tracks, disc)
        } else {
            d.tracks
        };
        tracks.append(&mut more);
    }
    assert(all.take(all.len() as int) =~= all);
    assert(all[0] == start[0]@);
    let r = AlbumDraft {
        group_key,
        identity,
        title,
        album_artist,
        year,
        mb_album_id,
        dir_path,
        art_path,
        is_compilation,
        source_dirs,
        tracks: sort_for_play(tracks),
    };
    assert(r@ =~= fused(all));
    r
}

pub open spec fn group_views(groups: Seq<Vec<AlbumDraft>>) -> Seq<Seq<DraftView>> {
    groups.map_values(|g: Vec<AlbumDraft>| draft_views(g@))
}

fn group_by_identity(drafts: Vec<AlbumDraft>) -> (groups: Vec<Vec<AlbumDraft>>)
    ensures
        group_views(groups@) == by_identity(draft_views(drafts@)),
        forall|i: int| 0 <= i < groups@.len() ==> (#[trigger] groups@[i])@.len() > 0,
{
    let ghost start = drafts@;
    let ghost all = draft_views(drafts@);
    let mut groups: Vec<Vec<AlbumDraft>> = Vec::new();
    assert(group_views(groups@) =~= by_identity(all.take(0)));
    for d in it: drafts.into_iter()
        invariant
            it.seq() == start,
            all == draft_views(start),
            group_views(groups@) == by_identity(all.take(it.index() as int)),
            forall|i: int| 0 <= i < groups@.len() ==> (#[trigger] groups@[i])@.len() > 0,
    {
        let ghost n = it.index() as int;
        assert(all.take(n + 1).drop_last() =~= all.take(n));
        assert(all.take(n + 1).last() == d@);
        let ghost before = groups@;
        let ghost now = group_views(before);
        let mut i: usize = 0;
        while i < groups.len() && !same_text(&groups[i][0].group_key, &d.group_key)
            invariant
                i <= groups@.len(),
                now == group_views(groups@),
                forall|k: int| 0 <= k < groups@.len() ==> (#[trigger] groups@[k])@.len() > 0,
                group_at(now, d@.group_key, 0) == group_at(now, d@.group_key, i as int),
            decreases groups@.len() - i,
        {
            assert(groups@[i as int]@.len() > 0);
            assert(now[i as int][0] == groups@[i as int]@[0]@);
            i += 1;
        }
        if i < groups.len() {
            assert(groups@[i as int]@.len() > 0);
            assert(now[i as int][0] == groups@[i as int]@[0]@);
            let mut g = groups.remove(i);
            let ghost was = g@;
            g.push(d);
            assert(draft_views(g@) =~= draft_views(was).push(d@));
            groups.insert(i, g);
            assert(group_views(groups@) =~= now.update(i as int, now[i as int].push(d@)));
        } else {
            let g: Vec<AlbumDraft> = vec![d];
            assert(draft_views(g@) =~= seq![d@]);
            groups.push(g);
            assert(group_views(groups@) =~= now.push(seq![d@]));
        }
    }
    assert(all.take(all.len() as int) =~= all);
    groups
}

/// Merge drafts that resolved to the same identity.
///
/// One release can occupy two sibling directories: a double album whose discs
/// are named rather than numbered, like Mellon Collie's "Dawn to Dusk" and
/// "Twilight to Starlight". Bucketing is per-directory, so those arrive here as
/// separate drafts sharing a group key. Without this pass they collide on
/// insert and the album row ends up describing only whichever disc was written
/// last, while both discs' tracks hang off it.
fn merge_by_identity(drafts: Vec<AlbumDraft>, roots: &[FilePath]) -> (out: Vec<AlbumDraft>)
    ensures
        draft_views(out@) == merged_groups(
            by_identity(draft_views(drafts@)),
            root_views(roots@),
        ),
{
    let groups = group_by_identity(drafts);
    let ghost start = groups@;
    let ghost all = group_views(groups@);
    let ghost rs = root_views(roots@);
    let mut out: Vec<AlbumDraft> = Vec::new();
    assert(draft_views(out@) =~= merged_groups(all.take(0), rs));
    for g in it: groups.into_iter()
        invariant
            it.seq() == start,
            all == group_views(start),
            rs == root_views(roots@),
            forall|i: int| 0 <= i < start.len() ==> (#[trigger] start[i])@.len() > 0,
            draft_views(out@) == merged_groups(all.take(it.index() as int), rs),
    {
        let ghost n = it.index() as int;
        assert(all.take(n + 1).drop_last() =~= all.take(n));
        assert(all.take(n + 1).last() == draft_views(g@));
        assert(start[n]@.len() > 0);
        let ghost before = draft_views(out@);
        let ghost gv = draft_views(g@);
        if g.len() == 1 {
            let mut g = g;
            out.append(&mut g);
            assert(draft_views(out@) =~= before + gv);
        } else {
            let g = stable_sort::<AlbumDraft, FolderOrder>(g);
            let ghost sv = order::sorted::<AlbumDraft, FolderOrder>(gv);
            proof {
                order::sorting_permutes::<AlbumDraft, FolderOrder>(gv);
            }
            assert(order::models::<AlbumDraft, FolderOrder>(start[n]@) =~= gv);
            assert(order::models::<AlbumDraft, FolderOrder>(g@) =~= draft_views(g@));
            assert(draft_views(g@) == sv);
            assert(sv.len() == g@.len());
            if g.len() > MAX_MERGED_FOLDERS {
                // Too many folders to be one release: the shared tag is a credit,
                // not a title. Give each folder its own album named after itself.
                let ghost gs = g@;
                let ghost goal = sv.map_values(|d: DraftView| retitled(d, rs));
                for d in it2: g.into_iter()
                    invariant
                        it2.seq() == gs,
                        sv == draft_views(gs),
                        rs == root_views(roots@),
                        goal == sv.map_values(|d: DraftView| retitled(d, rs)),
                        draft_views(out@) == before + goal.take(it2.index() as int),
                {
                    let ghost k = it2.index() as int;
                    let ghost was = out@;
                    assert(sv[k] == d@);
                    out.push(retitle_from_folder(d, roots));
                    assert(draft_views(out@) =~= draft_views(was).push(goal[k]));
                    assert(before + goal.take(k + 1) =~= (before + goal.take(k)).push(goal[k]));
                }
                assert(goal.take(goal.len() as int) =~= goal);
            } else {
                let ghost was = out@;
                out.push(fuse(g));
                assert(draft_views(out@) =~= before + seq![fused(sv)]);
            }
        }
    }
    assert(all.take(all.len() as int) =~= all);
    out
}

/// The order of albums on the shelf: by artist, then year, then title.
pub struct ShelfOrder;

/// The year order, in which an album without one comes first.
pub open spec fn year_before(a: Option<i32>, b: Option<i32>) -> bool {
    match (a, b) {
        (Some(x), Some(y)) => x < y,
        (None, Some(_)) => true,
        (_, None) => false,
    }
}

/// The text an album files under on the shelf.
pub open spec fn filed_under(s: Seq<char>) -> Seq<char> {
    util::without_article(util::norm(s))
}

pub open spec fn shelved_before(a: DraftView, b: DraftView) -> bool {
    let (aa, ba) = (filed_under(a.album_artist), filed_under(b.album_artist));
    ||| text::text_before(aa, ba)
    ||| aa == ba && year_before(a.year, b.year)
    ||| aa == ba && a.year == b.year && text::text_before(
        filed_under(a.title),
        filed_under(b.title),
    )
}

impl Order<AlbumDraft> for ShelfOrder {
    type Model = DraftView;

    open spec fn model(x: AlbumDraft) -> DraftView {
        x@
    }

    open spec fn less(a: DraftView, b: DraftView) -> bool {
        shelved_before(a, b)
    }

    fn is_before(a: &AlbumDraft, b: &AlbumDraft) -> (r: bool) {
        let aa = chars_of(&sort_key(&a.album_artist));
        let ba = chars_of(&sort_key(&b.album_artist));
        if !text::same_chars(&aa, &ba) {
            return text::chars_before(&aa, &ba);
        }
        proof {
            text::text_order_is_total(aa@, aa@);
        }
        match (a.year, b.year) {
            (Some(x), Some(y)) => {
                if x != y {
                    return x < y;
                }
            },
            (None, Some(_)) => {
                return true;
            },
            (Some(_), None) => {
                return false;
            },
            (None, None) => {},
        }
        text::chars_before(&chars_of(&sort_key(&a.title)), &chars_of(&sort_key(&b.title)))
    }
}

/// The albums that a list of files makes up, in shelf order.
pub open spec fn albums_of(
    metas: Seq<TrackMeta>,
    roots: Seq<PathView>,
    listings: Seq<ListingView>,
) -> Seq<DraftView> {
    order::sorted::<AlbumDraft, ShelfOrder>(
        merged_groups(by_identity(resolved_all(folded(bucketed(metas)), roots, listings)), roots),
    )
}

/// Bucket files into albums, then resolve each album's shared fields.
///
/// `roots` is used only to decide whether an album's parent directory is a
/// plausible artist folder and to make identities relative; pass the scanned
/// roots. `listings` holds the files of the album directories, among which the
/// cover art is looked for.
pub fn group_into_albums(metas: Vec<TrackMeta>, roots: &[FilePath], listings: &[Listing]) -> (r: Vec<
    AlbumDraft,
>)
    ensures
        draft_views(r@) == albums_of(metas@, root_views(roots@), listing_views(listings@)),
{
    let buckets = fold_truncated_buckets(bucket_files(metas));
    let drafts = resolve_all(buckets, roots, listings);
    let merged = merge_by_identity(drafts, roots);
    let ghost views = draft_views(merged@);
    assert(order::models::<AlbumDraft, ShelfOrder>(merged@) =~= views);
    let out = stable_sort::<AlbumDraft, ShelfOrder>(merged);
    assert(order::models::<AlbumDraft, ShelfOrder>(out@) =~= draft_views(out@));
    out
}

} // verus!
