//! Bringing an older database up to date.
//!
//! Upgrades run in order, each raising the stored version, so a database can be
//! brought forward from any older release without a rescan. Rescanning an 80 GB
//! library is minutes of work; losing measured loudness is hours.

use vstd::prelude::*;

use crate::error::Error;
use crate::group;
use crate::path;
use crate::path::FilePath;
use crate::path::PathView;
use crate::text;
use crate::text::{append_chars, append_text, chars_of, find_last, slice_chars, text_of};

verus! {

/// The version this build writes and understands.
pub const SCHEMA_VERSION: i64 = 5;

/// One upgrade of the database.
#[derive(Debug, Clone, Copy, PartialEq, Eq, Structural)]
pub enum Migration {
    /// Create everything in an empty database.
    CreateSchema,
    /// Add the columns that enrichment fills.
    AddEnrichmentColumns,
    /// Store cached covers as bare file names. Absolute paths break the moment
    /// the server runs somewhere with a different cache directory: a container,
    /// most obviously.
    BareCoverNames,
    /// Make directory-derived identities relative to the library root. Absolute
    /// keys tie an album to where the library is mounted, so moving the server
    /// would orphan every album that has no usable album tag, along with its
    /// measured loudness and its cover.
    RelativeFolderKeys,
    /// The other place a directory ends up inside an identity: albums whose
    /// title was truncated carry a directory suffix to keep unrelated releases
    /// apart, and that suffix was absolute too.
    RelativeTitleKeys,
}

/// The version a database is at once an upgrade has run.
pub open spec fn version_after(m: Migration) -> i64 {
    match m {
        Migration::CreateSchema => SCHEMA_VERSION,
        Migration::AddEnrichmentColumns => 2,
        Migration::BareCoverNames => 3,
        Migration::RelativeFolderKeys => 4,
        Migration::RelativeTitleKeys => 5,
    }
}

impl Migration {
    pub fn version(self) -> (r: i64)
        ensures
            r == version_after(self),
    {
        match self {
            Migration::CreateSchema => SCHEMA_VERSION,
            Migration::AddEnrichmentColumns => 2,
            Migration::BareCoverNames => 3,
            Migration::RelativeFolderKeys => 4,
            Migration::RelativeTitleKeys => 5,
        }
    }
}

/// Every upgrade of an existing database, oldest first.
pub open spec fn upgrades() -> Seq<Migration> {
    seq![
        Migration::AddEnrichmentColumns,
        Migration::BareCoverNames,
        Migration::RelativeFolderKeys,
        Migration::RelativeTitleKeys,
    ]
}

/// The upgrades that a database at a version still needs.
pub open spec fn pending(version: i64) -> Seq<Migration> {
    if version == 0 {
        seq![Migration::CreateSchema]
    } else {
        upgrades().filter(|m: Migration| version < version_after(m))
    }
}

/// What to do to a database at the given version, in order. A newer one is
/// refused rather than downgraded.
pub fn migrate(version: i64) -> (r: Result<Vec<Migration>, Error>)
    ensures
        version > SCHEMA_VERSION ==> r == Err::<Vec<Migration>, Error>(
            Error::SchemaTooNew { found: version, supported: SCHEMA_VERSION },
        ),
        version <= SCHEMA_VERSION ==> (r matches Ok(steps) && steps@ == pending(version)),
{
    if version > SCHEMA_VERSION {
        return Err(Error::SchemaTooNew { found: version, supported: SCHEMA_VERSION });
    }
    let mut steps: Vec<Migration> = Vec::new();
    if version == 0 {
        steps.push(Migration::CreateSchema);
        assert(steps@ =~= pending(version));
        return Ok(steps);
    }
    if version < 2 {
        steps.push(Migration::AddEnrichmentColumns);
    }
    if version < 3 {
        steps.push(Migration::BareCoverNames);
    }
    if version < 4 {
        steps.push(Migration::RelativeFolderKeys);
    }
    if version < 5 {
        steps.push(Migration::RelativeTitleKeys);
    }
    proof {
        lemma_pending(version);
        assert(steps@ =~= pending(version));
    }
    Ok(steps)
}

proof fn lemma_pending(version: i64)
    requires
        version != 0,
    ensures
        pending(version) == (if version < 2 {
            seq![Migration::AddEnrichmentColumns]
        } else {
            Seq::empty()
        }) + (if version < 3 {
            seq![Migration::BareCoverNames]
        } else {
            Seq::empty()
        }) + (if version < 4 {
            seq![Migration::RelativeFolderKeys]
        } else {
            Seq::empty()
        }) + (if version < 5 {
            seq![Migration::RelativeTitleKeys]
        } else {
            Seq::empty()
        }),
{
    let p = |m: Migration| version < version_after(m);
    let none = Seq::<Migration>::empty();
    let u1 = none.push(Migration::AddEnrichmentColumns);
    let u2 = u1.push(Migration::BareCoverNames);
    let u3 = u2.push(Migration::RelativeFolderKeys);
    let u4 = u3.push(Migration::RelativeTitleKeys);
    assert(u4 =~= upgrades());
    assert(u4.drop_last() =~= u3);
    assert(u3.drop_last() =~= u2);
    assert(u2.drop_last() =~= u1);
    assert(u1.drop_last() =~= none);
    reveal_with_fuel(Seq::filter, 5);
    assert(none.filter(p) =~= none);
    assert(pending(version) =~= u4.filter(p));
}

/// Every database that is not too new ends at the current version, and is raised
/// step by step: each upgrade leads to a higher version than the one before, and
/// nothing is done to a database that is up to date.
pub proof fn migrations_lead_to_the_current_version(version: i64)
    requires
        version <= SCHEMA_VERSION,
    ensures
        version == SCHEMA_VERSION ==> pending(version).len() == 0,
        version < SCHEMA_VERSION ==> pending(version).len() > 0 && version_after(
            pending(version).last(),
        ) == SCHEMA_VERSION,
        forall|i: int|
            0 <= i < pending(version).len() ==> version < version_after(
                #[trigger] pending(version)[i],
            ),
        forall|i: int, j: int|
            0 <= i < j < pending(version).len() ==> version_after(#[trigger] pending(version)[i])
                < version_after(#[trigger] pending(version)[j]),
{
    if version != 0 {
        lemma_pending(version);
    }
}

/// The bare file name to store for a cached cover, when its path has one.
pub fn cover_file_name(stored: &str) -> (r: Option<String>)
    ensures
        text::opt_text(r) == path::path_of(stored@).file_name(),
{
    FilePath::parse(stored).file_name()
}

/// A text without any number of leading `dir:` markers.
pub open spec fn without_marker(key: Seq<char>) -> Seq<char>
    decreases key.len(),
{
    if "dir:"@.is_prefix_of(key) && "dir:"@.len() > 0 {
        without_marker(key.skip("dir:"@.len() as int))
    } else {
        key
    }
}

/// The text of a path below the first root, at or after `i`, that contains it.
pub open spec fn below_root(p: PathView, roots: Seq<PathView>, i: int) -> Option<Seq<char>>
    decreases roots.len() - i,
{
    if i >= roots.len() {
        None
    } else {
        match p.strip_prefix(roots[i]) {
            Some(rest) => Some(rest.text()),
            None => below_root(p, roots, i + 1),
        }
    }
}

fn relative_text(p: &FilePath, roots: &[FilePath]) -> (r: Option<String>)
    ensures
        text::opt_text(r) == below_root(p@, group::root_views(roots@), 0),
{
    let mut i: usize = 0;
    while i < roots.len()
        invariant
            i <= roots@.len(),
            below_root(p@, group::root_views(roots@), 0) == below_root(
                p@,
                group::root_views(roots@),
                i as int,
            ),
        decreases roots@.len() - i,
    {
        assert(group::root_views(roots@)[i as int] == roots@[i as int]@);
        if let Some(rest) = p.strip_prefix(&roots[i]) {
            return Some(rest.to_text());
        }
        i += 1;
    }
    None
}

/// The relative form of a directory identity, when its directory lies in a root.
pub open spec fn relative_folder(key: Seq<char>, roots: Seq<PathView>) -> Option<Seq<char>> {
    match below_root(path::path_of(without_marker(key)), roots, 0) {
        Some(rest) => Some("dir:"@ + rest),
        None => None,
    }
}

/// The key to store in place of a directory identity, when it changes.
pub fn relative_folder_key(key: &str, roots: &[FilePath]) -> (r: Option<String>)
    ensures
        text::opt_text(r) == relative_folder(key@, group::root_views(roots@)),
{
    let marker = chars_of("dir:");
    let mut v = chars_of(key);
    proof {
        reveal_strlit("dir:");
    }
    while text::starts_with(&v, &marker)
        invariant
            marker@ == "dir:"@,
            marker@.len() > 0,
            without_marker(key@) == without_marker(v@),
        decreases v@.len(),
    {
        let rest = slice_chars(&v, marker.len(), v.len());
        assert(rest@ =~= v@.skip(marker@.len() as int));
        v = rest;
    }
    match relative_text(&FilePath::parse(&text_of(&v)), roots) {
        Some(rest) => {
            let mut out = chars_of("dir:");
            append_text(&mut out, &rest);
            Some(text_of(&out))
        },
        None => None,
    }
}

/// The relative form of an identity that ends in a directory, when the directory
/// lies in a root. The directory is what follows the last marker.
pub open spec fn relative_suffix(key: Seq<char>, roots: Seq<PathView>) -> Option<Seq<char>> {
    let i = text::last_at(key, "dir:"@, key.len() as int);
    if i < 0 {
        None
    } else {
        match below_root(path::path_of(key.skip(i + "dir:"@.len())), roots, 0) {
            Some(rest) => Some(key.take(i) + "dir:"@ + rest),
            None => None,
        }
    }
}

/// The key to store in place of an identity that ends in a directory, when it
/// changes.
pub fn relative_suffix_key(key: &str, roots: &[FilePath]) -> (r: Option<String>)
    ensures
        text::opt_text(r) == relative_suffix(key@, group::root_views(roots@)),
{
    let marker = chars_of("dir:");
    let v = chars_of(key);
    let i: usize = match find_last(&v, &marker) {
        Some(i) => i,
        None => {
            return None;
        },
    };
    let n: usize = v.len();
    let tail = slice_chars(&v, i + marker.len(), n);
    assert(tail@ =~= v@.skip(i + marker@.len()));
    match relative_text(&FilePath::parse(&text_of(&tail)), roots) {
        Some(rest) => {
            let mut out = slice_chars(&v, 0, i);
            assert(out@ =~= v@.take(i as int));
            append_chars(&mut out, &marker);
            append_text(&mut out, &rest);
            Some(text_of(&out))
        },
        None => None,
    }
}

/// What the upgrades read of a stored album, and may change.
pub struct StoredAlbum {
    pub id: i64,
    pub title: String,
    pub group_key: String,
    /// The cached cover, where there is one.
    pub cover: Option<String>,
}

/// What a [`StoredAlbum`] holds.
#[verifier::ext_equal]
pub struct StoredView {
    pub id: i64,
    pub title: Seq<char>,
    pub group_key: Seq<char>,
    pub cover: Option<Seq<char>>,
}

impl View for StoredAlbum {
    type V = StoredView;

    open spec fn view(&self) -> StoredView {
        StoredView {
            id: self.id,
            title: self.title@,
            group_key: self.group_key@,
            cover: text::opt_text(self.cover),
        }
    }
}

pub open spec fn stored_views(s: Seq<StoredAlbum>) -> Seq<StoredView> {
    s.map_values(|a: StoredAlbum| a@)
}

/// An identity that consists of a directory. The marker counts in either case of
/// its letters.
pub open spec fn names_folder(key: Seq<char>) -> bool {
    key.len() >= 4 && text::ascii_lowered(key.take(4)) == "dir:"@
}

/// Whether another album than the one at `i` has this identity.
pub open spec fn held(rows: Seq<StoredView>, i: int, key: Seq<char>) -> bool {
    exists|j: int| 0 <= j < rows.len() && j != i && (#[trigger] rows[j]).group_key == key
}

/// An album under another identity. A collision would mean that two folders
/// reduced to one key; the album then keeps the key it has.
pub open spec fn rekeyed(rows: Seq<StoredView>, i: int, key: Option<Seq<char>>) -> StoredView {
    match key {
        Some(k) if !held(rows, i, k) => StoredView { group_key: k, ..rows[i] },
        _ => rows[i],
    }
}

/// What an upgrade makes of the album at `i`.
pub open spec fn album_after(
    step: Migration,
    rows: Seq<StoredView>,
    i: int,
    roots: Seq<PathView>,
) -> StoredView {
    match step {
        Migration::BareCoverNames => StoredView {
            cover: match rows[i].cover {
                Some(stored) => match path::path_of(stored).file_name() {
                    Some(name) => Some(name),
                    None => Some(stored),
                },
                None => None,
            },
            ..rows[i]
        },
        Migration::RelativeFolderKeys => if names_folder(rows[i].group_key) {
            rekeyed(rows, i, relative_folder(rows[i].group_key, roots))
        } else {
            rows[i]
        },
        Migration::RelativeTitleKeys => rekeyed(
            rows,
            i,
            relative_suffix(rows[i].group_key, roots),
        ),
        _ => rows[i],
    }
}

/// What an upgrade makes of the first `n` albums, one after the other.
pub open spec fn upgraded(
    step: Migration,
    rows: Seq<StoredView>,
    roots: Seq<PathView>,
    n: nat,
) -> Seq<StoredView>
    decreases n,
{
    if n == 0 {
        rows
    } else {
        let now = upgraded(step, rows, roots, (n - 1) as nat);
        now.update(n - 1, album_after(step, now, n - 1, roots))
    }
}

fn is_held(rows: &Vec<StoredAlbum>, i: usize, key: &str) -> (r: bool)
    ensures
        r == held(stored_views(rows@), i as int, key@),
{
    let ghost all = stored_views(rows@);
    for j in 0..rows.len()
        invariant
            all == stored_views(rows@),
            forall|k: int| 0 <= k < j && k != i ==> (#[trigger] all[k]).group_key != key@,
    {
        assert(all[j as int].group_key == rows@[j as int].group_key@);
        if j != i && text::same_text(&rows[j].group_key, key) {
            return true;
        }
    }
    false
}

fn is_folder_key(key: &str) -> (r: bool)
    ensures
        r == names_folder(key@),
{
    let v = chars_of(key);
    if v.len() < 4 {
        return false;
    }
    let front = slice_chars(&v, 0, 4);
    assert(front@ =~= key@.take(4));
    text::same_chars(&text::lower_ascii_all(&front), &chars_of("dir:"))
}

/// The identity to put the album at `i` under, when it changes and is free.
fn new_key(
    step: Migration,
    rows: &Vec<StoredAlbum>,
    i: usize,
    roots: &[FilePath],
) -> (r: Option<String>)
    requires
        i < rows@.len(),
    ensures
        ({
            let all = stored_views(rows@);
            let wanted = match step {
                Migration::RelativeFolderKeys => if names_folder(all[i as int].group_key) {
                    relative_folder(all[i as int].group_key, group::root_views(roots@))
                } else {
                    None
                },
                Migration::RelativeTitleKeys => relative_suffix(
                    all[i as int].group_key,
                    group::root_views(roots@),
                ),
                _ => None,
            };
            match wanted {
                Some(k) if !held(all, i as int, k) => r matches Some(t) && t@ == k,
                _ => r is None,
            }
        }),
{
    let key = &rows[i].group_key;
    assert(stored_views(rows@)[i as int].group_key == key@);
    let wanted = match step {
        Migration::RelativeFolderKeys => if is_folder_key(key) {
            relative_folder_key(key, roots)
        } else {
            None
        },
        Migration::RelativeTitleKeys => relative_suffix_key(key, roots),
        _ => None,
    };
    match wanted {
        Some(k) => if is_held(rows, i, &k) {
            None
        } else {
            Some(k)
        },
        None => None,
    }
}

/// Carry out an upgrade on the stored albums, one after the other. No album is
/// dropped or added.
pub fn upgrade_albums(step: Migration, albums: Vec<StoredAlbum>, roots: &[FilePath]) -> (r: Vec<
    StoredAlbum,
>)
    ensures
        stored_views(r@) == upgraded(
            step,
            stored_views(albums@),
            group::root_views(roots@),
            albums@.len(),
        ),
{
    let ghost start = stored_views(albums@);
    let ghost all_roots = group::root_views(roots@);
    let mut out = albums;
    let count: usize = out.len();
    for i in 0..count
        invariant
            count == out@.len(),
            count == start.len(),
            all_roots == group::root_views(roots@),
            stored_views(out@) == upgraded(step, start, all_roots, i as nat),
    {
        let ghost now = stored_views(out@);
        assert(now[i as int] == out@[i as int]@);
        let cover = match &out[i].cover {
            Some(stored) => match step {
                Migration::BareCoverNames => match cover_file_name(stored) {
                    Some(name) => Some(name),
                    None => Some(stored.clone()),
                },
                _ => Some(stored.clone()),
            },
            None => None,
        };
        let group_key = match new_key(step, &out, i, roots) {
            Some(key) => key,
            None => out[i].group_key.clone(),
        };
        let changed = StoredAlbum {
            id: out[i].id,
            title: out[i].title.clone(),
            group_key,
            cover,
        };
        out.set(i, changed);
        assert(changed@ =~= album_after(step, now, i as int, all_roots));
        assert(stored_views(out@) =~= now.update(i as int, changed@));
    }
    out
}

/// What a list of upgrades makes of the stored albums, in order.
pub open spec fn upgraded_by(
    steps: Seq<Migration>,
    rows: Seq<StoredView>,
    roots: Seq<PathView>,
) -> Seq<StoredView>
    decreases steps.len(),
{
    if steps.len() == 0 {
        rows
    } else {
        upgraded(steps.last(), upgraded_by(steps.drop_last(), rows, roots), roots, rows.len())
    }
}

/// The same albums in the same order: none is lost, and each keeps its number and
/// its title.
pub open spec fn same_albums(before: Seq<StoredView>, after: Seq<StoredView>) -> bool {
    &&& before.len() == after.len()
    &&& forall|i: int|
        0 <= i < before.len() ==> (#[trigger] after[i]).id == before[i].id && after[i].title
            == before[i].title
}

/// No two albums have one identity.
pub open spec fn keys_differ(rows: Seq<StoredView>) -> bool {
    forall|i: int, j: int|
        0 <= i < j < rows.len() ==> (#[trigger] rows[i]).group_key != (#[trigger] rows[j]).group_key
}

proof fn lemma_upgraded(step: Migration, rows: Seq<StoredView>, roots: Seq<PathView>, n: nat)
    requires
        n <= rows.len(),
    ensures
        same_albums(rows, upgraded(step, rows, roots, n)),
        keys_differ(rows) ==> keys_differ(upgraded(step, rows, roots, n)),
    decreases n,
{
    if n > 0 {
        lemma_upgraded(step, rows, roots, (n - 1) as nat);
        let now = upgraded(step, rows, roots, (n - 1) as nat);
        let at = n - 1;
        let out = upgraded(step, rows, roots, n);
        assert(now[at].id == rows[at].id);
        if keys_differ(rows) {
            assert forall|i: int, j: int| 0 <= i < j < out.len() implies (#[trigger] out[i]).group_key
                != (#[trigger] out[j]).group_key by {
                assert(now[i].group_key != now[j].group_key);
            }
        }
    }
}

proof fn lemma_upgraded_by(steps: Seq<Migration>, rows: Seq<StoredView>, roots: Seq<PathView>)
    ensures
        same_albums(rows, upgraded_by(steps, rows, roots)),
        keys_differ(rows) ==> keys_differ(upgraded_by(steps, rows, roots)),
    decreases steps.len(),
{
    if steps.len() > 0 {
        lemma_upgraded_by(steps.drop_last(), rows, roots);
        let now = upgraded_by(steps.drop_last(), rows, roots);
        lemma_upgraded(steps.last(), now, roots, rows.len());
        let out = upgraded_by(steps, rows, roots);
        assert forall|i: int| 0 <= i < rows.len() implies (#[trigger] out[i]).id == rows[i].id
            && out[i].title == rows[i].title by {
            assert(now[i].id == rows[i].id);
        }
    }
}

/// A database that is not too new is brought to the current version with every
/// album that was there, under its number and title, and no two albums come to
/// share an identity. Upgrading it again does nothing.
pub proof fn upgrading_keeps_every_album(
    version: i64,
    rows: Seq<StoredView>,
    roots: Seq<PathView>,
)
    requires
        version <= SCHEMA_VERSION,
    ensures
        same_albums(rows, upgraded_by(pending(version), rows, roots)),
        keys_differ(rows) ==> keys_differ(upgraded_by(pending(version), rows, roots)),
        version < SCHEMA_VERSION ==> pending(version).len() > 0 && version_after(
            pending(version).last(),
        ) == SCHEMA_VERSION,
        ({
            let once = upgraded_by(pending(version), rows, roots);
            &&& pending(SCHEMA_VERSION).len() == 0
            &&& upgraded_by(pending(SCHEMA_VERSION), once, roots) == once
        }),
{
    lemma_upgraded_by(pending(version), rows, roots);
    migrations_lead_to_the_current_version(version);
    migrations_lead_to_the_current_version(SCHEMA_VERSION);
}

proof fn lemma_below_root(p: PathView, roots: Seq<PathView>, i: int)
    requires
        0 <= i <= roots.len(),
    ensures
        match below_root(p, roots, i) {
            Some(rest) => group::relative_to(p, roots, i) == rest,
            None => group::relative_to(p, roots, i) == p.text(),
        },
        (exists|k: int| i <= k < roots.len() && p.starts_with(#[trigger] roots[k]))
            ==> below_root(p, roots, i) is Some,
    decreases roots.len() - i,
{
    if i < roots.len() {
        lemma_below_root(p, roots, i + 1);
    }
}

proof fn lemma_rooted_text(dir: PathView)
    requires
        dir.rooted,
    ensures
        dir.text().len() > 0,
        dir.text()[0] == '/',
{
}

/// A migrated directory identity is the one a scan gives the same directory, so
/// the upgrade orphans nothing.
pub proof fn migrated_folder_keys_agree_with_scanning(dir: PathView, roots: Seq<PathView>)
    requires
        dir.rooted,
        dir.well_formed(),
        exists|k: int| 0 <= k < roots.len() && dir.starts_with(#[trigger] roots[k]),
    ensures
        relative_folder("dir:"@ + dir.text(), roots) == Some(group::folder_identity(dir, roots)),
{
    reveal_strlit("dir:");
    let key = "dir:"@ + dir.text();
    lemma_rooted_text(dir);
    assert("dir:"@ =~= key.take("dir:"@.len() as int));
    assert(key.skip("dir:"@.len() as int) =~= dir.text());
    assert("dir:"@[0] == 'd');
    assert(!"dir:"@.is_prefix_of(dir.text()));
    assert(without_marker(dir.text()) == dir.text());
    assert(without_marker(key) == dir.text());
    path::path_text_round_trips(dir);
    lemma_below_root(dir, roots, 0);
}

proof fn lemma_last_marker(s: Seq<char>, i: int, n: int)
    requires
        0 <= i < n <= s.len(),
        text::occurs_at(s, "dir:"@, i),
        forall|k: int| i < k < n ==> !#[trigger] text::occurs_at(s, "dir:"@, k),
    ensures
        text::last_at(s, "dir:"@, n) == i,
    decreases n,
{
    if n - 1 > i {
        assert(!text::occurs_at(s, "dir:"@, n - 1));
        lemma_last_marker(s, i, n - 1);
    }
}

/// A marker in front of a text without one is the last marker.
proof fn lemma_marker_is_last(front: Seq<char>, tail: Seq<char>)
    requires
        forall|k: int| !#[trigger] text::occurs_at(tail, "dir:"@, k),
    ensures
        text::last_at(front + "dir:"@ + tail, "dir:"@, (front + "dir:"@ + tail).len() as int)
            == front.len(),
{
    reveal_strlit("dir:");
    let marker = "dir:"@;
    let s = front + marker + tail;
    let i = front.len() as int;
    assert(s.subrange(i, i + marker.len()) =~= marker);
    assert forall|k: int| i < k < s.len() implies !#[trigger] text::occurs_at(s, marker, k) by {
        if text::occurs_at(s, marker, k) {
            let found = s.subrange(k, k + marker.len());
            assert(found[0] == s[k]);
            if k < i + marker.len() {
                assert(s[k] == marker[k - i]);
            } else {
                let j = k - i - marker.len();
                assert(tail.subrange(j, j + marker.len()) =~= found);
                assert(text::occurs_at(tail, marker, j));
            }
        }
    }
    lemma_last_marker(s, i, s.len() as int);
}

/// A migrated title identity is the one a scan gives the same album. The marker
/// does not occur in the directory's own path.
#[verifier::spinoff_prover]
pub proof fn migrated_title_keys_agree_with_scanning(
    artist: Seq<char>,
    title: Seq<char>,
    year: Option<i32>,
    dir: PathView,
    roots: Seq<PathView>,
)
    requires
        group::truncated(title),
        dir.rooted,
        dir.well_formed(),
        exists|k: int| 0 <= k < roots.len() && dir.starts_with(#[trigger] roots[k]),
        forall|k: int| !#[trigger] text::occurs_at(dir.text(), "dir:"@, k),
    ensures
        ({
            // What such an identity was before its directory became relative.
            let absolute = group::title_identity(artist, title, year, dir, Seq::empty());
            relative_suffix(absolute, roots) == Some(
                group::title_identity(artist, title, year, dir, roots),
            )
        }),
{
    reveal_strlit("dir:");
    reveal_strlit("|dir:");
    let marker = "dir:"@;
    let absolute = group::title_identity(artist, title, year, dir, Seq::empty());
    let relative = group::title_identity(artist, title, year, dir, roots);
    let tail = dir.text();
    let i = absolute.len() - tail.len() - marker.len();
    let front = absolute.take(i);
    assert(group::relative_to(dir, Seq::empty(), 0) == tail);
    assert("|dir:"@ =~= seq!['|'] + marker);
    assert(absolute =~= front + marker + tail);
    lemma_marker_is_last(front, tail);
    assert(absolute.skip(i + marker.len()) =~= tail);
    path::path_text_round_trips(dir);
    lemma_below_root(dir, roots, 0);
    assert(front + marker + group::relative_to(dir, roots, 0) =~= relative);
}

} // verus!
