//! What keeping a library promises: how paths come apart, what a track and an
//! album are stored as, what an upgrade touches, and what is read out of a probe.

use vstd::prelude::*;

use crate::ffprobe;
use crate::migrate;
use crate::migrate::{Migration, StoredView};
use crate::model;
use crate::model::{AlbumDraft, IdentitySource, TrackMeta};
use crate::path;
use crate::path::{FilePath, PathView};
use crate::persist;
use crate::persist::{AlbumKept, AlbumRecord, AlbumWrite};
use crate::scan_laws;
use crate::text;
use crate::text_laws;
use crate::util;

verus! {

/// A name by itself, as a path.
pub open spec fn named(name: Seq<char>) -> PathView {
    PathView { rooted: false, parts: seq![name] }
}

/// What is put into a folder has that folder for a parent and its own name.
pub proof fn files_lie_in_their_folder(dir: PathView, name: Seq<char>)
    requires
        name != path::dot(),
        name != path::dot_dot(),
    ensures
        dir.join(named(name)).parent() == Some(dir),
        dir.join(named(name)).file_name() == Some(name),
        dir.parts.len() == 0 ==> dir.parent() is None,
{
    assert((dir.parts + seq![name]).drop_last() =~= dir.parts);
}

/// A file's extension is what follows the last dot of its name, and its stem what
/// comes before; a dot in front does not count.
pub proof fn names_split_at_the_last_dot(dir: PathView, stem: Seq<char>, ext: Seq<char>)
    requires
        stem.len() > 0,
        !ext.contains('.'),
        stem + seq!['.'] + ext != path::dot_dot(),
    ensures
        ({
            let file = dir.join(named(stem + seq!['.'] + ext));
            file.file_stem() == Some(stem) && file.extension() == Some(ext)
        }),
        ({
            let hidden = dir.join(named(seq!['.'] + ext));
            ext.len() > 0 ==> hidden.file_stem() == Some(seq!['.'] + ext) && hidden.extension() is None
        }),
        ({
            let bare = dir.join(named(ext));
            bare.file_stem() == Some(ext) && bare.extension() is None
        }),
{
    let name = stem + seq!['.'] + ext;
    assert(name.len() >= 2);
    assert(name[stem.len() as int] == '.');
    assert(name != path::dot()) by {
        assert(path::dot().len() == 1);
    }
    assert(ext != path::dot() && ext != path::dot_dot()) by {
        if ext == path::dot() || ext == path::dot_dot() {
            assert(ext[0] == '.');
        }
    }
    files_lie_in_their_folder(dir, name);
    files_lie_in_their_folder(dir, ext);
    lemma_last_dot(stem, ext);
    assert(name.take(stem.len() as int) =~= stem);
    assert(name.skip(stem.len() as int + 1) =~= ext);
    lemma_no_dot(ext);
    let hidden = seq!['.'] + ext;
    if ext.len() > 0 {
        assert(hidden.len() >= 2);
        assert(hidden != path::dot_dot()) by {
            if hidden == path::dot_dot() {
                assert(ext[0] == hidden[1]);
            }
        }
        files_lie_in_their_folder(dir, hidden);
        assert(Seq::<char>::empty() + seq!['.'] + ext =~= hidden);
        lemma_last_dot(Seq::empty(), ext);
    }
}

proof fn lemma_last_dot(stem: Seq<char>, ext: Seq<char>)
    requires
        !ext.contains('.'),
    ensures
        path::last_dot(stem + seq!['.'] + ext) == stem.len(),
    decreases ext.len(),
{
    let name = stem + seq!['.'] + ext;
    if ext.len() > 0 {
        assert(ext[ext.len() - 1] == ext.last());
        assert(name.drop_last() =~= stem + seq!['.'] + ext.drop_last());
        assert(!ext.drop_last().contains('.')) by {
            if ext.drop_last().contains('.') {
                let i = choose|i: int| 0 <= i < ext.drop_last().len() && ext.drop_last()[i] == '.';
                assert(ext[i] == '.');
            }
        }
        lemma_last_dot(stem, ext.drop_last());
    }
}

proof fn lemma_no_dot(s: Seq<char>)
    requires
        !s.contains('.'),
    ensures
        path::last_dot(s) == -1,
    decreases s.len(),
{
    if s.len() > 0 {
        assert(s[s.len() - 1] == s.last());
        assert(!s.drop_last().contains('.')) by {
            if s.drop_last().contains('.') {
                let i = choose|i: int| 0 <= i < s.drop_last().len() && s.drop_last()[i] == '.';
                assert(s[i] == '.');
            }
        }
        lemma_no_dot(s.drop_last());
    }
}

/// A slash at the end of a path, and a dot behind one, change nothing; what
/// follows the slash is the next component.
pub proof fn slashes_part_components(s: Seq<char>, name: Seq<char>)
    requires
        s.len() > 0,
        name.len() > 0,
        !name.contains('/'),
        name != path::dot(),
    ensures
        path::path_of(s + seq!['/']) == path::path_of(s),
        path::path_of(s + seq!['/', '.']) == path::path_of(s),
        path::path_of(s + seq!['/'] + name) == (PathView {
            rooted: s[0] == '/',
            parts: path::path_of(s).parts.push(name),
        }),
{
    let pieces = text::split(s, '/');
    text_laws::lemma_split_has_pieces(s, '/');
    let empty = Seq::<char>::empty();
    let ended = s + seq!['/'];
    assert(ended.drop_last() =~= s);
    assert(text::split(ended, '/') == pieces.push(empty));
    assert(pieces.push(empty).drop_last() =~= pieces);
    assert(path::kept(pieces.push(empty)) == path::kept(pieces));
    lemma_split_last(s, seq!['.']);
    assert(pieces.push(seq!['.']).drop_last() =~= pieces);
    assert(s + seq!['/', '.'] =~= s + seq!['/'] + seq!['.']);
    lemma_split_last(s, name);
    assert(pieces.push(name).drop_last() =~= pieces);
    assert((s + seq!['/'] + name)[0] == s[0]);
    assert((s + seq!['/', '.'])[0] == s[0]);
    assert(ended[0] == s[0]);
}

proof fn lemma_split_last(s: Seq<char>, name: Seq<char>)
    requires
        !name.contains('/'),
    ensures
        text::split(s + seq!['/'] + name, '/') == text::split(s, '/').push(name),
    decreases name.len(),
{
    let whole = s + seq!['/'] + name;
    if name.len() == 0 {
        assert(whole.drop_last() =~= s);
        assert(name =~= Seq::empty());
    } else {
        assert(name[name.len() - 1] == name.last());
        assert(!name.drop_last().contains('/')) by {
            if name.drop_last().contains('/') {
                let i = choose|i: int| 0 <= i < name.drop_last().len() && name.drop_last()[i] == '/';
                assert(name[i] == '/');
            }
        }
        lemma_split_last(s, name.drop_last());
        assert(whole.drop_last() =~= s + seq!['/'] + name.drop_last());
        let before = text::split(s, '/').push(name.drop_last());
        assert(before.drop_last() =~= text::split(s, '/'));
        assert(name.drop_last().push(name.last()) =~= name);
    }
}

/// Paths sort by their first component that differs, as texts do, and a folder
/// comes before what it holds.
pub proof fn paths_sort_component_by_component(
    common: Seq<Seq<char>>,
    a: Seq<Seq<char>>,
    b: Seq<Seq<char>>,
    rooted: bool,
)
    requires
        b.len() > 0,
        a.len() > 0 ==> {
            &&& a[0] != b[0]
            &&& a[0] != path::dot() && a[0] != path::dot_dot()
            &&& b[0] != path::dot() && b[0] != path::dot_dot()
        },
    ensures
        path::path_before(
            (PathView { rooted, parts: common + a }),
            (PathView { rooted, parts: common + b }),
        ) <==> a.len() == 0 || text::text_before(a[0], b[0]),
    decreases common.len(),
{
    if common.len() == 0 {
        assert(common + a =~= a);
        assert(common + b =~= b);
    } else {
        let rest = common.drop_first();
        assert((common + a).drop_first() =~= rest + a);
        assert((common + b).drop_first() =~= rest + b);
        paths_sort_component_by_component(rest, a, b, rooted);
    }
}

/// An album has as many discs as its highest disc number says, and at least one.
pub proof fn discs_go_by_the_highest_number(tracks: Seq<TrackMeta>)
    ensures
        model::discs(tracks) >= 1,
        forall|i: int| 0 <= i < tracks.len() ==> (#[trigger] tracks[i]).disc_no <= model::discs(tracks),
        model::discs(tracks) == 1 || exists|i: int|
            0 <= i < tracks.len() && (#[trigger] tracks[i]).disc_no == model::discs(tracks),
    decreases tracks.len(),
{
    if tracks.len() > 0 {
        let front = tracks.drop_last();
        discs_go_by_the_highest_number(front);
        assert forall|i: int| 0 <= i < tracks.len() implies (#[trigger] tracks[i]).disc_no
            <= model::discs(tracks) by {
            if i < front.len() {
                assert(front[i] == tracks[i]);
            }
        }
        if model::discs(tracks) != 1 {
            if tracks.last().disc_no > model::discs(front) {
                assert(tracks[tracks.len() - 1].disc_no == model::discs(tracks));
            } else {
                let i = choose|i: int|
                    0 <= i < front.len() && (#[trigger] front[i]).disc_no == model::discs(front);
                assert(tracks[i] == front[i]);
            }
        }
    }
}

/// An album lasts as long as its tracks together.
pub proof fn durations_add_up(a: Seq<TrackMeta>, b: Seq<TrackMeta>, t: TrackMeta)
    ensures
        model::total_duration(seq![t]) == t.duration_ms,
        model::total_duration(a + b) == model::total_duration(a) + model::total_duration(b),
    decreases b.len(),
{
    assert(seq![t].drop_last() =~= Seq::empty());
    assert(model::total_duration(seq![t].drop_last()) == 0);
    if b.len() == 0 {
        assert(a + b =~= a);
    } else {
        assert((a + b).drop_last() =~= a + b.drop_last());
        assert((a + b).last() == b.last());
        durations_add_up(a, b.drop_last(), t);
    }
}

/// A track is shown under its title; one without a title, or with a blank one, by
/// the stem of its file name.
pub proof fn untitled_tracks_go_by_their_file(title: Seq<char>, p: PathView)
    ensures
        !text::is_blank(title) ==> model::shown_title(Some(title), p) == title,
        text::is_blank(title) ==> model::shown_title(Some(title), p) == model::shown_title(None, p),
        p.file_stem() matches Some(stem) ==> model::shown_title(None, p) == stem,
        p.file_stem() is None ==> model::shown_title(None, p) == "Unknown"@,
{
}

/// The sources of an identity have names of their own.
pub proof fn identity_sources_have_names(a: IdentitySource, b: IdentitySource)
    ensures
        a != b ==> model::identity_name(a) != model::identity_name(b),
        a is MusicBrainz <==> model::identity_name(a) == "musicbrainz"@,
        a is ArtistTitle <==> model::identity_name(a) == "artist+title"@,
        a is Directory <==> model::identity_name(a) == "directory"@,
{
    reveal_strlit("musicbrainz");
    reveal_strlit("artist+title");
    reveal_strlit("directory");
    assert("musicbrainz"@.len() == 11 && "artist+title"@.len() == 12 && "directory"@.len() == 9);
}

/// An artist is stored under a name without white space around it; one whose name
/// is blank is unknown.
pub proof fn artists_are_stored_by_name(front: Seq<char>, name: Seq<char>, back: Seq<char>)
    requires
        forall|i: int| 0 <= i < front.len() ==> text::is_white_space(#[trigger] front[i]),
        forall|i: int| 0 <= i < back.len() ==> text::is_white_space(#[trigger] back[i]),
        name.len() > 0 ==> !text::is_white_space(name.first()) && !text::is_white_space(name.last()),
    ensures
        name.len() > 0 ==> persist::stored_name(front + name + back) == name,
        name.len() == 0 ==> persist::stored_name(front + name + back) == "Unknown Artist"@,
{
    text_laws::trimming_takes_off_white_space(front, name, back);
}

/// What is written of an album is what was found of it: its key, its names, its
/// year, its cover, how many discs and tracks it has and how long they last.
pub proof fn albums_are_written_as_found(w: AlbumWrite, d: AlbumDraft, now: i64)
    requires
        w.is_for(d, now),
        d.tracks@.len() <= i64::MAX,
        d.source_dirs <= i64::MAX,
    ensures
        w.album.group_key@ == d@.group_key,
        w.album.title@ == d@.title,
        w.album.year == d@.year,
        text::opt_text(w.album.mb_album_id) == d@.mb_album_id,
        w.album.dir_path@ == d@.dir_path.text(),
        w.album.art_path is Some <==> d@.art_path is Some,
        d@.art_path matches Some(p) ==> w.album.art_path.unwrap()@ == p.text(),
        w.album.is_compilation == d@.is_compilation,
        w.album.source_dirs == d@.source_dirs,
        w.album.track_count == d@.tracks.len(),
        w.album.track_count == w.tracks@.len(),
        w.album.duration_ms == model::total_duration(d@.tracks),
        w.album.disc_count == model::discs(d@.tracks),
        w.album.identity_source@ == model::identity_name(d@.identity),
        w.album.sort_title@ == util::without_article(util::norm(d@.title)),
        w.album.seen_at == now,
        w.artist.name@ == persist::stored_name(d@.album_artist),
        w.artist.sort_name@ == util::without_article(util::norm(w.artist.name@)),
{
}

/// Every track is written under its album in its place, credited to the artist it
/// names, or else to the album's.
pub proof fn tracks_are_written_as_found(w: AlbumWrite, d: AlbumDraft, now: i64, i: int)
    requires
        w.is_for(d, now),
        0 <= i < d.tracks@.len(),
    ensures
        ({
            let t = d.tracks@[i];
            let r = w.tracks@[i];
            &&& r.track.path@ == t.path@.text()
            &&& r.track.disc_no == t.disc_no && r.track.track_no == t.track_no
            &&& r.track.duration_ms == t.duration_ms
            &&& r.track.mtime == t.mtime && r.track.size == t.size
            &&& r.track.year == t.year
            &&& r.track.compilation == t.compilation
            &&& r.track.added_at == now
            &&& t.title is Some && !text::is_blank(t.title.unwrap()@) ==> r.track.title@
                == t.title.unwrap()@
            &&& t.artist_raw is Some ==> r.artist.name@ == persist::stored_name(
                t.artist_raw.unwrap()@,
            )
            &&& t.artist_raw is None ==> r.artist.name@ == w.artist.name@
        }),
{
    assert(w.tracks@[i].track.is_for(d.tracks@[i], now));
}

/// An album seen for the first time is dated from then and carries nothing that
/// was measured or fetched for another.
pub proof fn new_albums_start_afresh(record: AlbumRecord, stored: AlbumKept)
    ensures
        ({
            let row = persist::seen_row(None, persist::new_album(record), record);
            &&& row.kept.added_at == record.seen_at
            &&& row.kept.id is None
            &&& row.kept.enrichment.rg_gain_db is None && row.kept.enrichment.rg_peak is None
            &&& row.kept.enrichment.rg_measured_at is None
            &&& row.kept.enrichment.art_cache_path is None
            &&& row.kept.enrichment.art_checked_at is None
            &&& row.kept.enrichment.art_mb_release_id is None
            &&& row.present && row.record == record
        }),
        ({
            let row = persist::seen_row(Some(stored), persist::new_album(record), record);
            row.kept == stored && row.present && row.record == record
        }),
{
}

/// A database takes exactly the steps that its version has not seen: a new one is
/// created at version 5, and older ones are brought there step by step.
pub proof fn each_version_takes_its_steps(version: i64)
    requires
        0 <= version <= 5,
    ensures
        version == 0 ==> migrate::pending(version) == seq![Migration::CreateSchema],
        version >= 1 ==> {
            let steps = migrate::pending(version);
            &&& steps.contains(Migration::AddEnrichmentColumns) <==> version < 2
            &&& steps.contains(Migration::BareCoverNames) <==> version < 3
            &&& steps.contains(Migration::RelativeFolderKeys) <==> version < 4
            &&& steps.contains(Migration::RelativeTitleKeys) <==> version < 5
            &&& !steps.contains(Migration::CreateSchema)
        },
{
    let all = migrate::upgrades();
    let late = |m: Migration| version < migrate::version_after(m);
    if version >= 1 {
        let steps = all.filter(late);
        assert(all[0] is AddEnrichmentColumns && all[1] is BareCoverNames && all[2] is RelativeFolderKeys
            && all[3] is RelativeTitleKeys);
        assert forall|m: Migration| steps.contains(m) implies all.contains(m) && late(m) by {
            all.lemma_filter_contains_rev(late, m);
            let k = choose|k: int| 0 <= k < steps.len() && steps[k] == m;
            all.lemma_filter_pred(late, k);
        }
        assert forall|k: int| 0 <= k < 4 && late(#[trigger] all[k]) implies steps.contains(all[k]) by {
            all.lemma_filter_contains(late, k);
        }
        assert(!all.contains(Migration::CreateSchema));
        assert(steps == migrate::pending(version));
    }
}

/// Covers come to be stored by their bare names, so that the cache can be moved;
/// nothing else about the album changes.
pub proof fn covers_are_stored_by_name(
    rows: Seq<StoredView>,
    i: int,
    roots: Seq<PathView>,
    dir: PathView,
    name: Seq<char>,
)
    requires
        0 <= i < rows.len(),
        rows[i].cover matches Some(c) && path::path_of(c) == dir.join(named(name)),
        name != path::dot(),
        name != path::dot_dot(),
    ensures
        ({
            let after = migrate::album_after(Migration::BareCoverNames, rows, i, roots);
            after == (StoredView { cover: Some(name), ..rows[i] })
        }),
{
    files_lie_in_their_folder(dir, name);
}

/// The steps that make identities relative leave covers alone, never give an album
/// an identity that another one holds, and pass over albums without a folder in
/// their identity.
pub proof fn identities_are_made_relative_with_care(
    rows: Seq<StoredView>,
    i: int,
    j: int,
    roots: Seq<PathView>,
    step: Migration,
)
    requires
        0 <= i < rows.len(),
        0 <= j < rows.len(),
        i != j,
        step is RelativeFolderKeys || step is RelativeTitleKeys,
    ensures
        ({
            let after = migrate::album_after(step, rows, i, roots);
            &&& after.cover == rows[i].cover
            &&& after.id == rows[i].id
            &&& after.title == rows[i].title
            &&& after.group_key != rows[i].group_key ==> after.group_key != rows[j].group_key
            &&& step is RelativeFolderKeys && !text::occurs_at(
                text::ascii_lowered(rows[i].group_key),
                "dir:"@,
                0,
            ) ==> after == rows[i]
            &&& step is RelativeTitleKeys && (forall|k: int|
                0 <= k <= rows[i].group_key.len() - 4 ==> #[trigger] rows[i].group_key.subrange(
                    k,
                    k + 4,
                ) != "dir:"@) ==> after == rows[i]
            &&& roots.len() == 0 ==> after == rows[i]
        }),
{
    reveal_strlit("dir:");
    let key = rows[i].group_key;
    text_laws::searches_from_the_back_find_the_last_place(key, "dir:"@, key.len() as int);
    if migrate::names_folder(key) {
        assert(text::ascii_lowered(key).subrange(0, 4) =~= text::ascii_lowered(key.take(4)));
    }
}

/// A value is found by its name, in small or capital letters, behind a colon and
/// in quotes, with its escapes undone; white space around the colon is no matter.
pub proof fn values_are_read_by_name(
    before: Seq<char>,
    name: Seq<char>,
    key: Seq<char>,
    gap: Seq<char>,
    space: Seq<char>,
    v: Seq<char>,
    more: Seq<char>,
)
    requires
        text::ascii_lowered(key) == text::ascii_lowered(name),
        forall|i: int| 0 <= i < gap.len() ==> text::is_white_space(#[trigger] gap[i]),
        forall|i: int| 0 <= i < space.len() ==> text::is_white_space(#[trigger] space[i]),
        !text::is_blank(v),
        ({
            let json = before + seq!['"'] + key + seq!['"'] + gap + seq![':'] + space + seq!['"']
                + ffprobe::in_quotes(v) + seq!['"'] + more;
            let needle = seq!['"'] + text::ascii_lowered(name) + seq!['"'];
            forall|k: int|
                0 <= k < before.len() ==> #[trigger] text::ascii_lowered(json).subrange(
                    k,
                    k + needle.len(),
                ) != needle
        }),
    ensures
        ({
            let json = before + seq!['"'] + key + seq!['"'] + gap + seq![':'] + space + seq!['"']
                + ffprobe::in_quotes(v) + seq!['"'] + more;
            ffprobe::value_of(json, name) == Some(v)
        }),
{
    let quoted = ffprobe::in_quotes(v) + seq!['"'] + more;
    let json = before + seq!['"'] + key + seq!['"'] + gap + seq![':'] + space + seq!['"']
        + ffprobe::in_quotes(v) + seq!['"'] + more;
    let lowered = text::ascii_lowered(json);
    let needle = ffprobe::key_text(name);
    let n = needle.len() as int;
    let at = before.len() as int;
    assert(text::ascii_lowered(key).len() == key.len());
    assert(needle.len() == key.len() + 2);
    assert(lowered.subrange(at, at + n) =~= needle) by {
        assert forall|k: int| 0 <= k < n implies lowered[at + k] == needle[k] by {
            if 0 < k < n - 1 {
                assert(json[at + k] == key[k - 1]);
                assert(text::ascii_lowered(key)[k - 1] == text::ascii_lower(key[k - 1]));
            }
        }
    }
    text_laws::searches_find_the_first_place(lowered, needle, 0);
    assert(text::first_at(lowered, needle, 0) == Some(at));
    let after = at + n;
    let tail = seq![':'] + space + seq!['"'] + quoted;
    assert(json.skip(after) =~= gap + tail);
    text_laws::lemma_front(gap, tail);
    lemma_kept_front(tail);
    assert(ffprobe::trim_start(json.skip(after)) == tail);
    let value = seq!['"'] + quoted;
    assert(tail.drop_first() =~= space + value);
    text_laws::lemma_front(space, value);
    lemma_kept_front(value);
    assert(value.drop_first() =~= quoted);
    ffprobe::quoted_text_reads_back(v, more);
}

proof fn lemma_kept_front(s: Seq<char>)
    requires
        s.len() > 0,
        !text::is_white_space(s[0]),
    ensures
        text::trim_front(s, Seq::empty(), true) == s,
{
}

/// A name that stands nowhere has no value.
pub proof fn missing_names_have_no_value(json: Seq<char>, name: Seq<char>)
    requires
        ({
            let needle = seq!['"'] + text::ascii_lowered(name) + seq!['"'];
            forall|k: int|
                0 <= k <= json.len() - needle.len() ==> #[trigger] text::ascii_lowered(json).subrange(
                    k,
                    k + needle.len(),
                ) != needle
        }),
    ensures
        ffprobe::value_of(json, name) is None,
{
    text_laws::searches_find_the_first_place(
        text::ascii_lowered(json),
        ffprobe::key_text(name),
        0,
    );
}

/// A number field counts as far as its digits go: of `3/12` the three.
pub proof fn number_fields_count_their_digits(
    json: Seq<char>,
    name: Seq<char>,
    n: u32,
    rest: Seq<char>,
    v: Seq<char>,
)
    requires
        ffprobe::value_of(json, name) == Some(v),
        text::trimmed(v) == text::decimal_text(n as nat) + rest,
        rest.len() > 0 ==> !text::is_digit(rest[0]),
    ensures
        ffprobe::leading_field(json, name) == Some(n),
{
    text_laws::written_numbers_read_back(n as nat);
    scan_laws::numbers_are_read_off_the_front(text::decimal_text(n as nat), rest);
}

/// What a probe says of a file goes into its track: names and codec as they are,
/// a missing disc as the first and a missing number as none, the date before the
/// year, and the bit rate in thousands.
pub proof fn probes_fill_in_the_track(
    m: TrackMeta,
    json: Seq<char>,
    p: FilePath,
    mtime: i64,
    size: i64,
    duration_ms: i64,
    n: u32,
)
    requires
        ffprobe::probed(m, json, p, mtime, size, duration_ms),
    ensures
        m.path == p && m.mtime == mtime && m.size == size && m.duration_ms == duration_ms,
        text::opt_text(m.title) == ffprobe::value_of(json, "title"@),
        text::opt_text(m.artist_raw) == ffprobe::value_of(json, "artist"@),
        text::opt_text(m.album_artist_raw) == ffprobe::value_of(json, "album_artist"@),
        text::opt_text(m.album_raw) == ffprobe::value_of(json, "album"@),
        text::opt_text(m.mb_album_id) == ffprobe::value_of(json, "MusicBrainz Album Id"@),
        text::opt_text(m.codec) == ffprobe::value_of(json, "codec_name"@),
        ffprobe::leading_field(json, "disc"@) == Some(n) && n > 0 ==> m.disc_no == n,
        ffprobe::leading_field(json, "disc"@) == Some(0u32) ==> m.disc_no == 1,
        ffprobe::leading_field(json, "disc"@) is None ==> m.disc_no == 1,
        ffprobe::leading_field(json, "track"@) == Some(n) ==> m.track_no == n,
        ffprobe::leading_field(json, "track"@) is None ==> m.track_no == 0,
        m.compilation <==> ffprobe::value_of(json, "compilation"@) == Some("1"@),
        ffprobe::value_of(json, "date"@) matches Some(d) ==> m.year == util::first_year(d, 0),
        ffprobe::value_of(json, "date"@) is None && ffprobe::value_of(json, "year"@) is Some ==> m.year
            == util::first_year(ffprobe::value_of(json, "year"@).unwrap(), 0),
        ffprobe::value_of(json, "date"@) is None && ffprobe::value_of(json, "year"@) is None
            ==> m.year is None,
        ffprobe::value_of(json, "bit_rate"@) == Some(text::decimal_text(n as nat)) ==> m.bitrate
            is Some && m.bitrate.unwrap() * 1000 <= n < (m.bitrate.unwrap() + 1) * 1000,
        ffprobe::value_of(json, "sample_rate"@) == Some(text::decimal_text(n as nat))
            ==> m.sample_rate == Some(n),
        ffprobe::value_of(json, "bit_rate"@) is None ==> m.bitrate is None,
        ffprobe::value_of(json, "sample_rate"@) is None ==> m.sample_rate is None,
        m.rg_track_gain is None && m.rg_album_gain is None,
{
    text_laws::written_numbers_read_back(n as nat);
    let t = text::decimal_text(n as nat);
    assert(t[0] != '+') by {
        assert(text::is_digit(t[0]));
    }
}

} // verus!
