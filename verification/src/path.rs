//! File paths as component lists.
//!
//! A path is absolute or relative and holds its components in order. Repeated
//! separators, and `.` anywhere but at the start of a relative path, are gone
//! once a text has been read, so two spellings of one path compare equal.

use vstd::prelude::*;

use crate::text;
use crate::text::{append_chars, chars_before, chars_of, same_chars, same_text, slice_chars, split_of, text_of};

verus! {

/// A path, as its components.
#[derive(Debug, PartialEq, Eq)]
pub struct FilePath {
    pub rooted: bool,
    pub parts: Vec<String>,
}

/// What a [`FilePath`] holds.
#[verifier::ext_equal]
pub struct PathView {
    pub rooted: bool,
    pub parts: Seq<Seq<char>>,
}

/// The texts of a list of strings.
pub open spec fn texts(v: Seq<String>) -> Seq<Seq<char>> {
    v.map_values(|s: String| s@)
}

impl View for FilePath {
    type V = PathView;

    open spec fn view(&self) -> PathView {
        PathView { rooted: self.rooted, parts: texts(self.parts@) }
    }
}

/// The component that stands for the directory itself.
pub open spec fn dot() -> Seq<char> {
    seq!['.']
}

/// The component that stands for the directory above.
pub open spec fn dot_dot() -> Seq<char> {
    seq!['.', '.']
}

/// The pieces of a text that are components: not the empty ones, and not `.`
/// except in front.
pub open spec fn kept(pieces: Seq<Seq<char>>) -> Seq<Seq<char>>
    decreases pieces.len(),
{
    if pieces.len() == 0 {
        Seq::empty()
    } else {
        let before = kept(pieces.drop_last());
        let piece = pieces.last();
        if piece.len() == 0 || (piece == dot() && pieces.len() > 1) {
            before
        } else {
            before.push(piece)
        }
    }
}

/// The path that a text names.
pub open spec fn path_of(s: Seq<char>) -> PathView {
    PathView { rooted: s.len() > 0 && s[0] == '/', parts: kept(text::split(s, '/')) }
}

impl PathView {
    /// Components as reading a text produces them.
    pub open spec fn well_formed(self) -> bool {
        forall|i: int|
            0 <= i < self.parts.len() ==> {
                &&& (#[trigger] self.parts[i]).len() > 0
                &&& !self.parts[i].contains('/')
                &&& self.parts[i] == dot() ==> i == 0 && !self.rooted
            }
    }

    /// The text of a path.
    pub open spec fn text(self) -> Seq<char> {
        if self.rooted {
            seq!['/'] + text::join(self.parts, seq!['/'])
        } else {
            text::join(self.parts, seq!['/'])
        }
    }

    /// The path without its last component.
    pub open spec fn parent(self) -> Option<PathView> {
        if self.parts.len() == 0 {
            None
        } else {
            Some(PathView { rooted: self.rooted, parts: self.parts.drop_last() })
        }
    }

    /// The last component, when it names something.
    pub open spec fn file_name(self) -> Option<Seq<char>> {
        if self.parts.len() == 0 || self.parts.last() == dot_dot() || self.parts.last() == dot() {
            None
        } else {
            Some(self.parts.last())
        }
    }

    /// The name up to its last dot, or all of it when it has none past the front.
    pub open spec fn file_stem(self) -> Option<Seq<char>> {
        match self.file_name() {
            None => None,
            Some(name) => {
                let i = last_dot(name);
                Some(if i <= 0 {
                    name
                } else {
                    name.take(i)
                })
            },
        }
    }

    /// The name after its last dot, when a dot stands past the front.
    pub open spec fn extension(self) -> Option<Seq<char>> {
        match self.file_name() {
            None => None,
            Some(name) => {
                let i = last_dot(name);
                if i <= 0 {
                    None
                } else {
                    Some(name.skip(i + 1))
                }
            },
        }
    }

    /// The path with a further one below it.
    pub open spec fn join(self, other: PathView) -> PathView {
        if other.rooted {
            other
        } else if other.parts.len() > 0 && other.parts[0] == dot() && (self.rooted
            || self.parts.len() > 0) {
            PathView { rooted: self.rooted, parts: self.parts + other.parts.drop_first() }
        } else {
            PathView { rooted: self.rooted, parts: self.parts + other.parts }
        }
    }

    /// The path without any component.
    pub open spec fn is_empty(self) -> bool {
        !self.rooted && self.parts.len() == 0
    }

    /// Whether the path lies at or below `base`, counted from the same place.
    pub open spec fn extends(self, base: PathView) -> bool {
        self.rooted == base.rooted && base.parts.is_prefix_of(self.parts)
    }

    /// Whether the components of `base` come first in this path. Those of the
    /// empty path come first in every one, a rooted one too.
    pub open spec fn starts_with(self, base: PathView) -> bool {
        base.is_empty() || self.extends(base)
    }

    /// What is left of the path below `base`.
    pub open spec fn strip_prefix(self, base: PathView) -> Option<PathView> {
        if base.is_empty() {
            Some(self)
        } else if self.starts_with(base) {
            Some(PathView { rooted: false, parts: self.parts.skip(base.parts.len() as int) })
        } else {
            None
        }
    }
}

/// The position of the last dot of a name, or -1.
pub open spec fn last_dot(name: Seq<char>) -> int
    decreases name.len(),
{
    if name.len() == 0 {
        -1
    } else if name.last() == '.' {
        name.len() - 1
    } else {
        last_dot(name.drop_last())
    }
}

/// How components rank before their text is looked at.
pub open spec fn part_rank(p: Seq<char>) -> int {
    if p == dot() {
        0
    } else if p == dot_dot() {
        1
    } else {
        2
    }
}

pub open spec fn part_before(a: Seq<char>, b: Seq<char>) -> bool {
    part_rank(a) < part_rank(b) || (part_rank(a) == part_rank(b) && text::text_before(a, b))
}

/// Component by component, a path that runs out first comes first.
pub open spec fn parts_before(a: Seq<Seq<char>>, b: Seq<Seq<char>>) -> bool
    decreases a.len(),
{
    if b.len() == 0 {
        false
    } else if a.len() == 0 {
        true
    } else if a[0] != b[0] {
        part_before(a[0], b[0])
    } else {
        parts_before(a.drop_first(), b.drop_first())
    }
}

/// The order of paths; the root comes before any named component.
pub open spec fn path_before(a: PathView, b: PathView) -> bool {
    if a.rooted == b.rooted {
        parts_before(a.parts, b.parts)
    } else if a.rooted {
        b.parts.len() > 0
    } else {
        a.parts.len() == 0
    }
}

fn is_dot(s: &Vec<char>) -> (r: bool)
    ensures
        r == (s@ == dot()),
{
    let r = s.len() == 1 && s[0] == '.';
    assert(r ==> s@ =~= dot());
    r
}

fn is_dot_dot(s: &Vec<char>) -> (r: bool)
    ensures
        r == (s@ == dot_dot()),
{
    let r = s.len() == 2 && s[0] == '.' && s[1] == '.';
    assert(r ==> s@ =~= dot_dot());
    r
}

impl Clone for FilePath {
    fn clone(&self) -> (r: Self)
        ensures
            r@ == self@,
    {
        FilePath { rooted: self.rooted, parts: copy_texts(&self.parts, 0, self.parts.len()) }
    }
}

/// A copy of `v[from..to]`.
pub fn copy_texts(v: &Vec<String>, from: usize, to: usize) -> (out: Vec<String>)
    requires
        from <= to <= v@.len(),
    ensures
        out@ == v@.subrange(from as int, to as int),
        texts(out@) == texts(v@).subrange(from as int, to as int),
{
    let mut out: Vec<String> = Vec::new();
    for i in from..to
        invariant
            from <= to <= v@.len(),
            out@ == v@.subrange(from as int, i as int),
    {
        out.push(v[i].clone());
        assert(v@.subrange(from as int, i + 1) =~= v@.subrange(from as int, i as int).push(
            v@[i as int],
        ));
    }
    assert(texts(out@) =~= texts(v@).subrange(from as int, to as int));
    out
}

impl FilePath {
    /// The path that a text names.
    pub fn parse(s: &str) -> (r: FilePath)
        ensures
            r@ == path_of(s@),
    {
        let v = chars_of(s);
        let pieces = split_of(&v, '/');
        let ghost all = text::each_chars(pieces@);
        let mut parts: Vec<String> = Vec::new();
        for i in 0..pieces.len()
            invariant
                all == text::each_chars(pieces@),
                texts(parts@) == kept(all.take(i as int)),
        {
            assert(all.take(i + 1).drop_last() =~= all.take(i as int));
            if pieces[i].len() > 0 && !(i > 0 && is_dot(&pieces[i])) {
                let ghost before = parts@;
                parts.push(text_of(&pieces[i]));
                assert(texts(parts@) =~= texts(before).push(all[i as int]));
            }
        }
        assert(all.take(all.len() as int) =~= all);
        FilePath { rooted: v.len() > 0 && v[0] == '/', parts }
    }

    /// The text of the path.
    pub fn to_text(&self) -> (r: String)
        ensures
            r@ == self@.text(),
    {
        let mut out: Vec<char> = Vec::new();
        if self.rooted {
            out.push('/');
        }
        let ghost start = out@;
        assert(start =~= if self.rooted { seq!['/'] } else { Seq::empty() });
        for i in 0..self.parts.len()
            invariant
                out@ == start + text::join(self@.parts.take(i as int), seq!['/']),
        {
            let ghost all = self@.parts;
            assert(all.take(i + 1).drop_last() =~= all.take(i as int));
            if i > 0 {
                out.push('/');
            }
            append_chars(&mut out, &chars_of(&self.parts[i]));
            assert(out@ =~= start + text::join(all.take(i + 1), seq!['/']));
        }
        assert(self@.parts.take(self@.parts.len() as int) =~= self@.parts);
        assert(out@ =~= self@.text());
        text_of(&out)
    }

    /// The path without its last component.
    pub fn parent(&self) -> (r: Option<FilePath>)
        ensures
            match r {
                Some(p) => self@.parent() == Some(p@),
                None => self@.parent() is None,
            },
    {
        if self.parts.len() == 0 {
            return None;
        }
        let parts = copy_texts(&self.parts, 0, self.parts.len() - 1);
        assert(self@.parts.drop_last() =~= self@.parts.subrange(0, self@.parts.len() - 1));
        Some(FilePath { rooted: self.rooted, parts })
    }

    /// The last component, when it names something.
    pub fn file_name(&self) -> (r: Option<String>)
        ensures
            match r {
                Some(p) => self@.file_name() == Some(p@),
                None => self@.file_name() is None,
            },
    {
        if self.parts.len() == 0 {
            return None;
        }
        let last = &self.parts[self.parts.len() - 1];
        assert(self@.parts.last() == last@);
        let v = chars_of(last);
        if is_dot(&v) || is_dot_dot(&v) {
            None
        } else {
            Some(last.clone())
        }
    }

    /// The name up to its last dot, or all of it when it has none past the front.
    pub fn file_stem(&self) -> (r: Option<String>)
        ensures
            match r {
                Some(p) => self@.file_stem() == Some(p@),
                None => self@.file_stem() is None,
            },
    {
        match self.file_name() {
            None => None,
            Some(name) => {
                let v = chars_of(&name);
                match find_last_dot(&v) {
                    Some(i) => {
                        if i == 0 {
                            Some(name)
                        } else {
                            assert(v@.take(i as int) =~= v@.subrange(0, i as int));
                            Some(text_of(&slice_chars(&v, 0, i)))
                        }
                    },
                    None => Some(name),
                }
            },
        }
    }

    /// The name after its last dot, when a dot stands past the front.
    pub fn extension(&self) -> (r: Option<String>)
        ensures
            match r {
                Some(p) => self@.extension() == Some(p@),
                None => self@.extension() is None,
            },
    {
        match self.file_name() {
            None => None,
            Some(name) => {
                let v = chars_of(&name);
                match find_last_dot(&v) {
                    Some(i) => {
                        if i == 0 {
                            None
                        } else {
                            let end: usize = v.len();
                            assert(v@.skip(i + 1) =~= v@.subrange(i + 1, v@.len() as int));
                            Some(text_of(&slice_chars(&v, i + 1, end)))
                        }
                    },
                    None => None,
                }
            },
        }
    }

    /// The path with a further one below it.
    pub fn join(&self, other: &FilePath) -> (r: FilePath)
        ensures
            r@ == self@.join(other@),
    {
        if other.rooted {
            return other.clone();
        }
        let mut parts = copy_texts(&self.parts, 0, self.parts.len());
        let ghost start = texts(parts@);
        assert(start =~= self@.parts);
        let from: usize = if other.parts.len() > 0 && (self.rooted || self.parts.len() > 0)
            && is_dot(&chars_of(&other.parts[0])) {
            1
        } else {
            0
        };
        assert(from == 1 ==> other@.parts[0] == dot());
        for i in from..other.parts.len()
            invariant
                from <= other@.parts.len(),
                texts(parts@) == start + other@.parts.subrange(from as int, i as int),
        {
            let ghost before = parts@;
            parts.push(other.parts[i].clone());
            assert(texts(parts@) =~= texts(before).push(other@.parts[i as int]));
            assert(other@.parts.subrange(from as int, i + 1) =~= other@.parts.subrange(
                from as int,
                i as int,
            ).push(other@.parts[i as int]));
        }
        let r = FilePath { rooted: self.rooted, parts };
        assert(r@ =~= self@.join(other@));
        r
    }

    /// Whether the components of `base` come first in this path.
    pub fn starts_with(&self, base: &FilePath) -> (r: bool)
        ensures
            r == self@.starts_with(base@),
    {
        if !base.rooted && base.parts.len() == 0 {
            return true;
        }
        if self.rooted != base.rooted || base.parts.len() > self.parts.len() {
            return false;
        }
        for i in 0..base.parts.len()
            invariant
                base@.parts.len() <= self@.parts.len(),
                forall|j: int| 0 <= j < i ==> base@.parts[j] == self@.parts[j],
        {
            if !same_text(&base.parts[i], &self.parts[i]) {
                assert(base@.parts[i as int] != self@.parts[i as int]);
                return false;
            }
        }
        assert(base@.parts =~= self@.parts.take(base@.parts.len() as int));
        true
    }

    /// What is left of the path below `base`.
    pub fn strip_prefix(&self, base: &FilePath) -> (r: Option<FilePath>)
        ensures
            match r {
                Some(p) => self@.strip_prefix(base@) == Some(p@),
                None => self@.strip_prefix(base@) is None,
            },
    {
        if !base.rooted && base.parts.len() == 0 {
            return Some(self.clone());
        }
        if !self.starts_with(base) {
            return None;
        }
        let parts = copy_texts(&self.parts, base.parts.len(), self.parts.len());
        assert(self@.parts.skip(base@.parts.len() as int) =~= self@.parts.subrange(
            base@.parts.len() as int,
            self@.parts.len() as int,
        ));
        Some(FilePath { rooted: false, parts })
    }

    /// Whether two paths have the same components.
    pub fn same(&self, other: &FilePath) -> (r: bool)
        ensures
            r == (self@ == other@),
    {
        if self.rooted != other.rooted || self.parts.len() != other.parts.len() {
            assert(self@.parts.len() == self.parts@.len() && other@.parts.len()
                == other.parts@.len());
            return false;
        }
        let r = self.starts_with(other);
        assert(self@.parts.len() == 0 ==> self@.parts =~= other@.parts);
        assert(r ==> self@.parts.take(other@.parts.len() as int) =~= self@.parts);
        assert(r ==> self@ =~= other@);
        assert(!r ==> self@ != other@) by {
            if self@ == other@ {
                assert(other@.parts.is_prefix_of(self@.parts));
            }
        }
        r
    }

    /// Whether this path comes strictly before another.
    pub fn before(&self, other: &FilePath) -> (r: bool)
        ensures
            r == path_before(self@, other@),
    {
        if self.rooted != other.rooted {
            return if self.rooted {
                other.parts.len() > 0
            } else {
                self.parts.len() == 0
            };
        }
        let mut i: usize = 0;
        assert(self@.parts.skip(0) =~= self@.parts);
        assert(other@.parts.skip(0) =~= other@.parts);
        loop
            invariant
                i <= self@.parts.len(),
                i <= other@.parts.len(),
                self.rooted == other.rooted,
                parts_before(self@.parts, other@.parts) == parts_before(
                    self@.parts.skip(i as int),
                    other@.parts.skip(i as int),
                ),
            decreases self@.parts.len() - i,
        {
            if i == other.parts.len() {
                return false;
            }
            if i == self.parts.len() {
                return true;
            }
            let a = chars_of(&self.parts[i]);
            let b = chars_of(&other.parts[i]);
            assert(self@.parts.skip(i as int)[0] == a@);
            assert(other@.parts.skip(i as int)[0] == b@);
            if !same_chars(&a, &b) {
                let ra = rank_of(&a);
                let rb = rank_of(&b);
                return ra < rb || (ra == rb && chars_before(&a, &b));
            }
            assert(self@.parts.skip(i as int).drop_first() =~= self@.parts.skip(i + 1));
            assert(other@.parts.skip(i as int).drop_first() =~= other@.parts.skip(i + 1));
            i += 1;
        }
    }
}

fn rank_of(p: &Vec<char>) -> (r: u8)
    ensures
        r == part_rank(p@),
{
    if is_dot(p) {
        0
    } else if is_dot_dot(p) {
        1
    } else {
        2
    }
}

fn find_last_dot(v: &Vec<char>) -> (r: Option<usize>)
    ensures
        match r {
            Some(i) => last_dot(v@) == i as int && i < v@.len(),
            None => last_dot(v@) == -1,
        },
{
    let mut n: usize = v.len();
    assert(v@.take(n as int) =~= v@);
    while n > 0
        invariant
            n <= v@.len(),
            last_dot(v@) == last_dot(v@.take(n as int)),
        decreases n,
    {
        if v[n - 1] == '.' {
            return Some(n - 1);
        }
        assert(v@.take(n as int).drop_last() =~= v@.take(n - 1));
        n -= 1;
    }
    None
}

proof fn lemma_split_free(s: Seq<char>, sep: char)
    requires
        !s.contains(sep),
    ensures
        text::split(s, sep) == seq![s],
    decreases s.len(),
{
    if s.len() > 0 {
        assert forall|i: int| 0 <= i < s.drop_last().len() implies s.drop_last()[i] != sep by {
            assert(s.contains(s[i]));
        }
        lemma_split_free(s.drop_last(), sep);
        assert(s.contains(s.last()));
        assert(s.drop_last().push(s.last()) =~= s);
        assert(text::split(s, sep) =~= seq![s]);
    } else {
        assert(s =~= Seq::empty());
    }
}

proof fn lemma_split_concat(a: Seq<char>, b: Seq<char>, sep: char)
    ensures
        text::split(a.push(sep) + b, sep) == text::split(a, sep) + text::split(b, sep),
    decreases b.len(),
{
    let whole = a.push(sep) + b;
    text::split_then_join(b, sep);
    if b.len() == 0 {
        assert(whole =~= a.push(sep));
        assert(whole.drop_last() =~= a);
        assert(text::split(whole, sep) =~= text::split(a, sep) + text::split(b, sep));
    } else {
        assert(whole.drop_last() =~= a.push(sep) + b.drop_last());
        lemma_split_concat(a, b.drop_last(), sep);
        text::split_then_join(b.drop_last(), sep);
        let left = text::split(a, sep);
        let right = text::split(b.drop_last(), sep);
        assert((left + right).drop_last() =~= left + right.drop_last());
        assert(text::split(whole, sep) =~= left + text::split(b, sep));
    }
}

proof fn lemma_split_join(parts: Seq<Seq<char>>)
    requires
        parts.len() > 0,
        forall|i: int| 0 <= i < parts.len() ==> !(#[trigger] parts[i]).contains('/'),
    ensures
        text::split(text::join(parts, seq!['/']), '/') == parts,
    decreases parts.len(),
{
    let last = parts.last();
    assert(!parts[parts.len() - 1].contains('/'));
    lemma_split_free(last, '/');
    if parts.len() == 1 {
        assert(parts =~= seq![last]);
    } else {
        let front = parts.drop_last();
        assert forall|i: int| 0 <= i < front.len() implies !(#[trigger] front[i]).contains('/') by {
            assert(front[i] == parts[i]);
        }
        lemma_split_join(front);
        let j = text::join(front, seq!['/']);
        assert(text::join(parts, seq!['/']) =~= j.push('/') + last);
        lemma_split_concat(j, last, '/');
        assert(front + seq![last] =~= parts);
    }
}

proof fn lemma_kept_all(pieces: Seq<Seq<char>>)
    requires
        pieces.len() > 0,
        forall|i: int|
            0 < i < pieces.len() ==> (#[trigger] pieces[i]).len() > 0 && pieces[i] != dot(),
    ensures
        kept(pieces) == if pieces[0].len() == 0 {
            pieces.drop_first()
        } else {
            pieces
        },
    decreases pieces.len(),
{
    let front = pieces.drop_last();
    if pieces.len() == 1 {
        assert(kept(front) =~= Seq::empty());
        assert(pieces.drop_first() =~= Seq::empty());
        assert(Seq::empty().push(pieces[0]) =~= pieces);
    } else {
        lemma_kept_all(front);
        assert(pieces[pieces.len() - 1] == pieces.last());
        assert(front.push(pieces.last()) =~= pieces);
        assert(front.drop_first().push(pieces.last()) =~= pieces.drop_first());
    }
}

proof fn lemma_kept_shape(pieces: Seq<Seq<char>>)
    ensures
        forall|i: int|
            0 <= i < kept(pieces).len() ==> {
                &&& (#[trigger] kept(pieces)[i]).len() > 0
                &&& pieces.contains(kept(pieces)[i])
                &&& kept(pieces)[i] == dot() ==> i == 0 && pieces[0] == dot()
            },
    decreases pieces.len(),
{
    if pieces.len() > 0 {
        let front = pieces.drop_last();
        lemma_kept_shape(front);
        assert forall|i: int| 0 <= i < kept(pieces).len() implies {
            &&& (#[trigger] kept(pieces)[i]).len() > 0
            &&& pieces.contains(kept(pieces)[i])
            &&& kept(pieces)[i] == dot() ==> i == 0 && pieces[0] == dot()
        } by {
            if i < kept(front).len() {
                assert(kept(pieces)[i] == kept(front)[i]);
                let k = choose|k: int| 0 <= k < front.len() && front[k] == kept(front)[i];
                assert(pieces[k] == kept(front)[i]);
            } else {
                assert(kept(pieces)[i] == pieces.last());
                if pieces.len() == 1 {
                    assert(kept(front) =~= Seq::empty());
                }
            }
        }
    }
}

proof fn lemma_first_piece(s: Seq<char>, sep: char)
    requires
        s.len() > 0,
        s[0] == sep,
    ensures
        text::split(s, sep)[0].len() == 0,
        text::split(s, sep).len() >= 2,
    decreases s.len(),
{
    if s.len() == 1 {
        assert(s.drop_last() =~= Seq::empty());
    } else {
        lemma_first_piece(s.drop_last(), sep);
    }
}

/// Reading any text gives a well-formed path.
pub proof fn parsed_paths_are_well_formed(s: Seq<char>)
    ensures
        path_of(s).well_formed(),
{
    let pieces = text::split(s, '/');
    text::split_then_join(s, '/');
    lemma_kept_shape(pieces);
    let p = path_of(s);
    assert forall|i: int| 0 <= i < p.parts.len() implies {
        &&& (#[trigger] p.parts[i]).len() > 0
        &&& !p.parts[i].contains('/')
        &&& p.parts[i] == dot() ==> i == 0 && !p.rooted
    } by {
        let k = choose|k: int| 0 <= k < pieces.len() && pieces[k] == p.parts[i];
        assert(!pieces[k].contains('/'));
        if p.rooted {
            lemma_first_piece(s, '/');
        }
    }
}

proof fn lemma_kept_none()
    ensures
        kept(seq![Seq::<char>::empty()]) == Seq::<Seq<char>>::empty(),
{
    let pieces = seq![Seq::<char>::empty()];
    assert(pieces.drop_last() =~= Seq::<Seq<char>>::empty());
    assert(kept(pieces.drop_last()) == Seq::<Seq<char>>::empty());
}

/// Writing a well-formed path out and reading it back gives the same path.
pub proof fn path_text_round_trips(p: PathView)
    requires
        p.well_formed(),
    ensures
        path_of(p.text()) == p,
{
    let slash = seq!['/'];
    let body = text::join(p.parts, slash);
    if p.parts.len() == 0 {
        let none = Seq::<char>::empty();
        assert(body =~= none);
        assert(text::split(none, '/') =~= seq![none]);
        if p.rooted {
            lemma_split_concat(none, none, '/');
            assert(p.text() =~= none.push('/') + none);
            let pieces = seq![none] + seq![none];
            assert(pieces.drop_last() =~= seq![none]);
            lemma_kept_none();
            assert(kept(pieces) =~= p.parts);
        } else {
            assert(p.text() =~= none);
            lemma_kept_none();
            assert(kept(seq![none]) =~= p.parts);
        }
    } else {
        lemma_split_join(p.parts);
        if p.rooted {
            lemma_split_concat(Seq::empty(), body, '/');
            assert(p.text() =~= Seq::<char>::empty().push('/') + body);
            let pieces = seq![Seq::<char>::empty()] + p.parts;
            assert(text::split(p.text(), '/') =~= pieces);
            assert forall|i: int| 0 < i < pieces.len() implies (#[trigger] pieces[i]).len() > 0
                && pieces[i] != dot() by {
                assert(pieces[i] == p.parts[i - 1]);
            }
            lemma_kept_all(pieces);
            assert(pieces.drop_first() =~= p.parts);
        } else {
            lemma_kept_all(p.parts);
            assert(p.parts[0].len() > 0);
            lemma_first_char(p.parts);
        }
    }
}

proof fn lemma_first_char(parts: Seq<Seq<char>>)
    requires
        parts.len() > 0,
        parts[0].len() > 0,
        !parts[0].contains('/'),
    ensures
        text::join(parts, seq!['/']).len() > 0,
        text::join(parts, seq!['/'])[0] == parts[0][0],
        parts[0][0] != '/',
    decreases parts.len(),
{
    assert(parts[0].contains(parts[0][0]));
    if parts.len() > 1 {
        assert(parts.drop_last()[0] == parts[0]);
        lemma_first_char(parts.drop_last());
    }
}

/// A relative path put below a base comes back when the base is taken off.
pub proof fn strip_undoes_join(base: PathView, rel: PathView)
    requires
        !rel.rooted,
        rel.parts.len() > 0 ==> rel.parts[0] != dot(),
    ensures
        base.join(rel).starts_with(base),
        base.join(rel).strip_prefix(base) == Some(rel),
{
    let whole = base.join(rel);
    assert(whole.parts.take(base.parts.len() as int) =~= base.parts);
    assert(whole.parts.skip(base.parts.len() as int) =~= rel.parts);
}

/// What is left below a base, put back below it, is the whole path again.
pub proof fn join_undoes_strip(base: PathView, whole: PathView)
    requires
        whole.starts_with(base),
        whole.well_formed(),
    ensures
        base.join(whole.strip_prefix(base).unwrap()) == whole,
{
    let rest = whole.strip_prefix(base).unwrap();
    if rest.parts.len() > 0 {
        assert(rest.parts[0] == whole.parts[base.parts.len() as int]);
    }
    assert(base.join(rest).parts =~= whole.parts);
}

proof fn lemma_parts_total(a: Seq<Seq<char>>, b: Seq<Seq<char>>)
    ensures
        !(parts_before(a, b) && parts_before(b, a)),
        a != b ==> parts_before(a, b) || parts_before(b, a),
        !parts_before(a, a),
    decreases a.len(),
{
    if a.len() > 0 {
        lemma_parts_total(a.drop_first(), a.drop_first());
    }
    if a.len() > 0 && b.len() > 0 {
        text::text_order_is_total(a[0], b[0]);
        if a[0] == b[0] {
            lemma_parts_total(a.drop_first(), b.drop_first());
            if a.drop_first() == b.drop_first() {
                assert(a =~= seq![a[0]] + a.drop_first());
                assert(b =~= seq![b[0]] + b.drop_first());
            }
        }
    } else if a.len() == 0 && b.len() == 0 {
        assert(a =~= b);
    }
}

proof fn lemma_parts_transitive(a: Seq<Seq<char>>, b: Seq<Seq<char>>, c: Seq<Seq<char>>)
    requires
        parts_before(a, b),
        parts_before(b, c),
    ensures
        parts_before(a, c),
    decreases a.len(),
{
    if a.len() > 0 {
        if a[0] == b[0] && b[0] == c[0] {
            lemma_parts_transitive(a.drop_first(), b.drop_first(), c.drop_first());
        } else if a[0] != b[0] && b[0] != c[0] {
            if text::text_before(a[0], b[0]) && text::text_before(b[0], c[0]) {
                text::text_order_is_transitive(a[0], b[0], c[0]);
            }
            text::text_order_is_total(a[0], c[0]);
            text::text_order_is_total(b[0], c[0]);
        }
    }
}

/// Distinct paths always compare, and never both ways.
pub proof fn path_order_is_total(a: PathView, b: PathView)
    ensures
        !(path_before(a, b) && path_before(b, a)),
        a != b ==> path_before(a, b) || path_before(b, a),
        !path_before(a, a),
{
    lemma_parts_total(a.parts, b.parts);
    if a.rooted == b.rooted && a.parts == b.parts {
        assert(a =~= b);
    }
}

/// The order of paths carries across a middle path.
pub proof fn path_order_is_transitive(a: PathView, b: PathView, c: PathView)
    requires
        path_before(a, b),
        path_before(b, c),
    ensures
        path_before(a, c),
{
    if a.rooted == b.rooted && b.rooted == c.rooted {
        lemma_parts_transitive(a.parts, b.parts, c.parts);
    }
}

} // verus!
