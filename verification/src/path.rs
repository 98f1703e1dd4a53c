//! Paths as sequences of components, and the relative path from one location
//! to another.
//!
//! A path is held in parsed form: the root marker `/` (only ever first), the
//! markers `.` and `..`, and plain names. Two paths are the same when their
//! components are the same, so `a//b` and `a/b` do not differ.

use crate::text::{chars_of, pieces, push_char, split, str_eq, string_of_range};
use vstd::prelude::*;

verus! {

/// The component that marks an absolute path.
pub open spec fn root_part() -> Seq<char> {
    seq!['/']
}

/// The component that stands for the directory itself.
pub open spec fn cur_part() -> Seq<char> {
    seq!['.']
}

/// The component that stands for the directory above.
pub open spec fn parent_part() -> Seq<char> {
    seq!['.', '.']
}

/// A plain name: any component that is none of the three markers.
pub open spec fn is_normal(part: Seq<char>) -> bool {
    part != root_part() && part != cur_part() && part != parent_part()
}

/// What one piece adds to the components before it: an empty piece adds
/// nothing, and neither does `.` unless it is the very first piece.
pub open spec fn kept_step(before: Seq<Seq<char>>, piece: Seq<char>, first: bool) -> Seq<
    Seq<char>,
> {
    if piece.len() == 0 || (piece == cur_part() && !first) {
        before
    } else {
        before.push(piece)
    }
}

/// The components that a list of pieces stands for.
pub open spec fn kept(pieces: Seq<Seq<char>>) -> Seq<Seq<char>>
    decreases pieces.len(),
{
    if pieces.len() == 0 {
        Seq::empty()
    } else {
        kept_step(kept(pieces.drop_last()), pieces.last(), pieces.len() == 1)
    }
}

/// The root marker, if the text starts with a separator.
pub open spec fn root_of(s: Seq<char>) -> Seq<Seq<char>> {
    if s.len() > 0 && s[0] == '/' {
        seq![root_part()]
    } else {
        Seq::empty()
    }
}

/// The components of the path written as `s`.
pub open spec fn components(s: Seq<char>) -> Seq<Seq<char>> {
    root_of(s) + kept(pieces(s, '/'))
}

/// The text of a path: its components with one separator between neighbours,
/// and none after the root marker.
pub open spec fn rendered(parts: Seq<Seq<char>>) -> Seq<char>
    decreases parts.len(),
{
    if parts.len() == 0 {
        Seq::empty()
    } else {
        let before = rendered(parts.drop_last());
        if before.len() == 0 || before.last() == '/' {
            before + parts.last()
        } else {
            before + seq!['/'] + parts.last()
        }
    }
}

/// Whether the path starts at the root.
pub open spec fn is_rooted(parts: Seq<Seq<char>>) -> bool {
    parts.len() > 0 && parts[0] == root_part()
}

/// The last component, if it is a plain name.
pub open spec fn file_name_of(parts: Seq<Seq<char>>) -> Option<Seq<char>> {
    if parts.len() > 0 && is_normal(parts.last()) {
        Some(parts.last())
    } else {
        None
    }
}

/// The position of the last `.` in `name`, or -1 where it has none.
pub open spec fn last_dot(name: Seq<char>) -> int
    decreases name.len(),
{
    if name.len() == 0 {
        -1
    } else if name.last() == '.' {
        name.len() - 1
    } else {
        last_dot(name.drop_last())
    }
}

/// The extension of a file name: what follows its last `.`, unless the name
/// has none or starts with its only one.
pub open spec fn extension_of_name(name: Seq<char>) -> Option<Seq<char>> {
    let dot = last_dot(name);
    if dot <= 0 {
        None
    } else {
        Some(name.subrange(dot + 1, name.len() as int))
    }
}

/// The file name without its extension.
pub open spec fn stem_of_name(name: Seq<char>) -> Seq<char> {
    let dot = last_dot(name);
    if dot <= 0 {
        name
    } else {
        name.subrange(0, dot)
    }
}

/// The extension of the path's file name.
pub open spec fn extension_of(parts: Seq<Seq<char>>) -> Option<Seq<char>> {
    match file_name_of(parts) {
        Some(name) => extension_of_name(name),
        None => None,
    }
}

/// The path without its last component; nothing lies above the root or above
/// the empty path.
pub open spec fn parent_of(parts: Seq<Seq<char>>) -> Option<Seq<Seq<char>>> {
    if parts.len() == 0 || parts.last() == root_part() {
        None
    } else {
        Some(parts.drop_last())
    }
}

/// `rel` taken from `base`: a rooted `rel` replaces `base`, any other is
/// appended to it, without the `.` it may start with.
pub open spec fn joined_path(base: Seq<Seq<char>>, rel: Seq<Seq<char>>) -> Seq<Seq<char>> {
    if is_rooted(rel) || base.len() == 0 {
        rel
    } else if rel.len() > 0 && rel[0] == cur_part() {
        base + rel.skip(1)
    } else {
        base + rel
    }
}

/// The path with the extension of its file name replaced by `ext`; an empty
/// `ext` removes the extension, and a path without a file name stays as it is.
pub open spec fn with_extension_of(parts: Seq<Seq<char>>, ext: Seq<char>) -> Seq<Seq<char>> {
    match file_name_of(parts) {
        Some(name) => {
            let stem = stem_of_name(name);
            let renamed = if ext.len() == 0 {
                stem
            } else {
                stem + seq!['.'] + ext
            };
            parts.drop_last().push(renamed)
        },
        None => parts,
    }
}

/// How many leading components two paths share.
pub open spec fn common_len(a: Seq<Seq<char>>, b: Seq<Seq<char>>) -> nat
    decreases a.len(),
{
    if a.len() > 0 && b.len() > 0 && a[0] == b[0] {
        1 + common_len(a.skip(1), b.skip(1))
    } else {
        0
    }
}

/// `n` steps to the directory above.
pub open spec fn parents(n: nat) -> Seq<Seq<char>> {
    Seq::new(n, |i: int| parent_part())
}

/// `rest` behind `first`, where there is a `rest`.
pub open spec fn steps_after(first: Seq<Seq<char>>, rest: Option<Seq<Seq<char>>>) -> Option<
    Seq<Seq<char>>,
> {
    match rest {
        Some(steps) => Some(first + steps),
        None => None,
    }
}

/// The steps from `base` to `target`, two paths that differ in their first
/// component (or of which one is empty): one step up for each component of
/// `base`, then down along `target`. A `.` in `base` stands for no directory,
/// so it takes one component of `target` with it and costs no step up; where
/// `target` would have to pass a `..` of `base`, there is no answer.
pub open spec fn steps_between(base: Seq<Seq<char>>, target: Seq<Seq<char>>) -> Option<
    Seq<Seq<char>>,
>
    decreases base.len(),
{
    if base.len() == 0 {
        Some(target)
    } else if target.len() == 0 {
        Some(parents(base.len()))
    } else if base[0] == cur_part() {
        steps_after(seq![target[0]], steps_between(base.skip(1), target.skip(1)))
    } else if base[0] == parent_part() {
        None
    } else {
        Some(parents(base.len()) + target)
    }
}

/// The relative path that leads from the directory `base` to `target`: the
/// shared leading components are dropped, and `steps_between` joins what is
/// left. A rooted and an unrooted path have no relation.
pub open spec fn relative(base: Seq<Seq<char>>, target: Seq<Seq<char>>) -> Option<
    Seq<Seq<char>>,
> {
    if is_rooted(base) != is_rooted(target) {
        None
    } else {
        let shared = common_len(base, target) as int;
        steps_between(base.skip(shared), target.skip(shared))
    }
}

/// The directory that a reference written in `from` starts at: a path whose
/// file name has an extension denotes a file, and its directory is the base.
pub open spec fn base_of(from: Seq<Seq<char>>) -> Seq<Seq<char>> {
    if extension_of(from) is Some {
        from.drop_last()
    } else {
        from
    }
}

/// The reference to `to` as written in `from`.
pub open spec fn path_diff_of(from: Seq<Seq<char>>, to: Seq<Seq<char>>) -> Option<
    Seq<Seq<char>>,
> {
    relative(base_of(from), to)
}

/// Where `rel` leads from `base`: `.` stays, `..` leaves the last plain name
/// (and stays at the root), any other component goes down.
pub open spec fn resolved(base: Seq<Seq<char>>, rel: Seq<Seq<char>>) -> Seq<Seq<char>>
    decreases rel.len(),
{
    if rel.len() == 0 {
        base
    } else {
        let at = resolved(base, rel.drop_last());
        let step = rel.last();
        if step == cur_part() {
            at
        } else if step == parent_part() {
            if at.len() > 0 && is_normal(at.last()) {
                at.drop_last()
            } else if at.len() > 0 && at.last() == root_part() {
                at
            } else {
                at.push(step)
            }
        } else {
            at.push(step)
        }
    }
}

/// A path without `.` and `..`: plain names, behind the root marker or not.
pub open spec fn is_plain(parts: Seq<Seq<char>>) -> bool {
    forall|i: int|
        0 <= i < parts.len() ==> (#[trigger] is_normal(parts[i]) || (i == 0 && parts[i]
            == root_part()))
}

/// The text of an optional string.
pub open spec fn opt_text(o: Option<String>) -> Option<Seq<char>> {
    match o {
        Some(s) => Some(s@),
        None => None,
    }
}

/// The components of an optional path.
pub open spec fn opt_path(o: Option<FilePath>) -> Option<Seq<Seq<char>>> {
    match o {
        Some(p) => Some(p@),
        None => None,
    }
}

/// A location in a file tree, held as its components.
#[derive(Debug)]
pub struct FilePath {
    parts: Vec<String>,
}

impl View for FilePath {
    type V = Seq<Seq<char>>;

    closed spec fn view(&self) -> Seq<Seq<char>> {
        self.parts.deep_view()
    }
}

impl Clone for FilePath {
    fn clone(&self) -> (copy: FilePath)
        ensures
            copy@ == self@,
    {
        let mut parts: Vec<String> = Vec::new();
        let mut i: usize = 0;
        while i < self.parts.len()
            invariant
                i <= self.parts.len(),
                parts.deep_view() == self.parts.deep_view().take(i as int),
            decreases self.parts.len() - i,
        {
            parts.push(self.parts[i].clone());
            assert(parts.deep_view() == self.parts.deep_view().take(i as int).push(
                self.parts[i as int]@,
            ));
            i += 1;
        }
        assert(self.parts.deep_view().take(self.parts.len() as int) == self.parts.deep_view());
        FilePath { parts }
    }
}

fn keep_piece(parts: &mut Vec<String>, piece: String, first: bool)
    ensures
        final(parts).deep_view() == kept_step(old(parts).deep_view(), piece@, first),
{
    proof {
        reveal_strlit(".");
    }
    let skip = piece.as_str().unicode_len() == 0 || (!first && str_eq(piece.as_str(), "."));
    assert("."@ == cur_part());
    if !skip {
        parts.push(piece);
        assert(parts.deep_view() == old(parts).deep_view().push(piece@));
    }
}

impl FilePath {
    /// The empty path.
    pub fn new() -> (p: FilePath)
        ensures
            p@ == Seq::<Seq<char>>::empty(),
    {
        let p = FilePath { parts: Vec::new() };
        assert(p@ == Seq::<Seq<char>>::empty());
        p
    }

    /// Reads a path from its text.
    pub fn from_str(s: &str) -> (p: FilePath)
        ensures
            p@ == components(s@),
    {
        let mut parts: Vec<String> = Vec::new();
        let chars = chars_of(s);
        if chars.len() > 0 && chars[0] == '/' {
            proof {
                reveal_strlit("/");
            }
            parts.push(String::from_str("/"));
            assert("/"@ == root_part());
            assert(parts.deep_view() == seq![root_part()]);
        }
        assert(parts.deep_view() == root_of(s@));
        let found = split(s, '/');
        let ghost all = found.deep_view();
        let ghost whole = found@;
        assert(root_of(s@) + kept(all.take(0)) == root_of(s@));
        let mut first = true;
        for piece in it: found
            invariant
                it.seq() == whole,
                all.len() == whole.len(),
                forall|k: int| 0 <= k < whole.len() ==> all[k] == (#[trigger] whole[k])@,
                first == (it.index() == 0),
                parts.deep_view() == root_of(s@) + kept(all.take(it.index() as int)),
        {
            let ghost done = it.index() as int;
            let ghost before = kept(all.take(done));
            proof {
                assert(all.take(done + 1).drop_last() == all.take(done));
                assert(all.take(done + 1).last() == piece@);
            }
            let ghost held = parts.deep_view();
            keep_piece(&mut parts, piece, first);
            proof {
                if kept_step(before, piece@, first) == before {
                    assert(kept_step(held, piece@, first) == held);
                } else {
                    assert(kept_step(held, piece@, first) == held.push(piece@));
                    assert((root_of(s@) + before).push(piece@) == root_of(s@) + before.push(piece@));
                }
            }
            first = false;
        }
        assert(all.take(all.len() as int) == all);
        FilePath { parts }
    }

    /// The number of components.
    pub fn len(&self) -> (n: usize)
        ensures
            n == self@.len(),
    {
        self.parts.len()
    }

    /// The component at `index`.
    pub fn part(&self, index: usize) -> (part: &String)
        requires
            index < self@.len(),
        ensures
            part@ == self@[index as int],
    {
        &self.parts[index]
    }

    /// Whether both paths have the same components.
    pub fn same(&self, other: &FilePath) -> (same: bool)
        ensures
            same == (self@ == other@),
    {
        if self.parts.len() != other.parts.len() {
            return false;
        }
        let mut i: usize = 0;
        while i < self.parts.len()
            invariant
                i <= self.parts.len(),
                self.parts.len() == other.parts.len(),
                self@.take(i as int) == other@.take(i as int),
            decreases self.parts.len() - i,
        {
            if !str_eq(self.parts[i].as_str(), other.parts[i].as_str()) {
                assert(self@[i as int] != other@[i as int]);
                return false;
            }
            assert(self@.take(i + 1) == self@.take(i as int).push(self@[i as int]));
            assert(other@.take(i + 1) == other@.take(i as int).push(other@[i as int]));
            i += 1;
        }
        assert(self@.take(self@.len() as int) == self@);
        assert(other@.take(other@.len() as int) == other@);
        true
    }
}

fn copy_parts(out: &mut Vec<String>, parts: &Vec<String>, from: usize)
    requires
        from <= parts.len(),
    ensures
        final(out).deep_view() == old(out).deep_view() + parts.deep_view().skip(from as int),
{
    let mut i: usize = from;
    while i < parts.len()
        invariant
            from <= i <= parts.len(),
            out.deep_view() == old(out).deep_view() + parts.deep_view().subrange(
                from as int,
                i as int,
            ),
        decreases parts.len() - i,
    {
        let ghost before = out.deep_view();
        out.push(parts[i].clone());
        assert(out.deep_view() == before.push(parts[i as int]@));
        assert(parts.deep_view().subrange(from as int, i + 1) == parts.deep_view().subrange(
            from as int,
            i as int,
        ).push(parts[i as int]@));
        i += 1;
    }
    assert(parts.deep_view().subrange(from as int, parts.len() as int) == parts.deep_view().skip(
        from as int,
    ));
}

fn push_parents(out: &mut Vec<String>, n: usize)
    ensures
        final(out).deep_view() == old(out).deep_view() + parents(n as nat),
{
    let mut i: usize = 0;
    while i < n
        invariant
            i <= n,
            out.deep_view() == old(out).deep_view() + parents(i as nat),
        decreases n - i,
    {
        proof {
            reveal_strlit("..");
        }
        let ghost before = out.deep_view();
        out.push(String::from_str(".."));
        assert(".."@ == parent_part());
        assert(out.deep_view() == before.push(parent_part()));
        assert(parents((i + 1) as nat) == parents(i as nat).push(parent_part()));
        i += 1;
    }
}

fn plain_name(part: &str) -> (plain: bool)
    ensures
        plain == is_normal(part@),
{
    proof {
        reveal_strlit("/");
        reveal_strlit(".");
        reveal_strlit("..");
    }
    assert("/"@ == root_part());
    assert("."@ == cur_part());
    assert(".."@ == parent_part());
    !str_eq(part, "/") && !str_eq(part, ".") && !str_eq(part, "..")
}

fn find_last_dot(name: &Vec<char>) -> (dot: Option<usize>)
    ensures
        match dot {
            Some(at) => last_dot(name@) == at && at < name@.len(),
            None => last_dot(name@) == -1,
        },
{
    let mut i: usize = name.len();
    assert(name@.take(i as int) == name@);
    while i > 0
        invariant
            i <= name.len(),
            last_dot(name@) == last_dot(name@.take(i as int)),
        decreases i,
    {
        assert(name@.take(i as int).drop_last() == name@.take(i - 1));
        if name[i - 1] == '.' {
            return Some(i - 1);
        }
        i -= 1;
    }
    None
}

impl FilePath {
    /// The path as text.
    pub fn to_string(&self) -> (out: String)
        ensures
            out@ == rendered(self@),
    {
        let mut out = String::new();
        let mut open: bool = false;
        let mut i: usize = 0;
        while i < self.parts.len()
            invariant
                i <= self.parts.len(),
                out@ == rendered(self@.take(i as int)),
                open == (out@.len() > 0 && out@.last() != '/'),
            decreases self.parts.len() - i,
        {
            assert(self@.take(i + 1).drop_last() == self@.take(i as int));
            if open {
                push_char(&mut out, '/');
            }
            let piece = chars_of(self.parts[i].as_str());
            out.append(self.parts[i].as_str());
            if piece.len() > 0 {
                open = piece[piece.len() - 1] != '/';
            } else {
                open = false;
                assert(out@.len() > 0 ==> out@.last() == '/');
            }
            i += 1;
        }
        assert(self@.take(self@.len() as int) == self@);
        out
    }

    /// Whether the path starts at the root.
    pub fn is_absolute(&self) -> (rooted: bool)
        ensures
            rooted == is_rooted(self@),
    {
        proof {
            reveal_strlit("/");
        }
        assert("/"@ == root_part());
        self.parts.len() > 0 && str_eq(self.parts[0].as_str(), "/")
    }

    /// The last component, if it is a plain name.
    pub fn file_name(&self) -> (name: Option<String>)
        ensures
            opt_text(name) == file_name_of(self@),
    {
        let n = self.parts.len();
        if n > 0 && plain_name(self.parts[n - 1].as_str()) {
            Some(self.parts[n - 1].clone())
        } else {
            None
        }
    }

    /// The extension of the file name.
    pub fn extension(&self) -> (ext: Option<String>)
        ensures
            opt_text(ext) == extension_of(self@),
    {
        let n = self.parts.len();
        if n > 0 && plain_name(self.parts[n - 1].as_str()) {
            let name = chars_of(self.parts[n - 1].as_str());
            let found = find_last_dot(&name);
            match found {
                Some(dot) => {
                    if dot == 0 {
                        None
                    } else {
                        assert(dot < name.len());
                        Some(string_of_range(&name, dot + 1, name.len()))
                    }
                },
                None => None,
            }
        } else {
            None
        }
    }

    /// The path without its last component.
    pub fn parent(&self) -> (above: Option<FilePath>)
        ensures
            opt_path(above) == parent_of(self@),
    {
        proof {
            reveal_strlit("/");
        }
        assert("/"@ == root_part());
        let n = self.parts.len();
        if n == 0 || str_eq(self.parts[n - 1].as_str(), "/") {
            None
        } else {
            let mut parts = self.clone().parts;
            parts.pop();
            let above = FilePath { parts };
            assert(above@ == self@.drop_last());
            Some(above)
        }
    }

    /// `rel` taken from this path.
    pub fn join(&self, rel: &FilePath) -> (out: FilePath)
        ensures
            out@ == joined_path(self@, rel@),
    {
        proof {
            reveal_strlit(".");
        }
        assert("."@ == cur_part());
        if rel.is_absolute() || self.parts.len() == 0 {
            rel.clone()
        } else {
            let mut parts = self.clone().parts;
            let from: usize = if rel.parts.len() > 0 && str_eq(rel.parts[0].as_str(), ".") {
                1
            } else {
                0
            };
            copy_parts(&mut parts, &rel.parts, from);
            assert(rel@.skip(0) == rel@);
            FilePath { parts }
        }
    }

    /// The path with the extension of its file name replaced by `ext`.
    pub fn with_extension(&self, ext: &str) -> (out: FilePath)
        ensures
            out@ == with_extension_of(self@, ext@),
    {
        let n = self.parts.len();
        if n > 0 && plain_name(self.parts[n - 1].as_str()) {
            let name = chars_of(self.parts[n - 1].as_str());
            let found = find_last_dot(&name);
            let stem_len: usize = match found {
                Some(dot) => if dot == 0 {
                    name.len()
                } else {
                    dot
                },
                None => name.len(),
            };
            let mut renamed = string_of_range(&name, 0, stem_len);
            assert(name@.subrange(0, name@.len() as int) == name@);
            assert(renamed@ == stem_of_name(name@));
            if ext.unicode_len() > 0 {
                push_char(&mut renamed, '.');
                renamed.append(ext);
                assert(renamed@ == stem_of_name(name@) + seq!['.'] + ext@);
            }
            let mut parts = self.clone().parts;
            let ghost whole = parts.deep_view();
            parts.pop();
            assert(parts.deep_view() == whole.drop_last());
            let ghost front = parts.deep_view();
            parts.push(renamed);
            assert(parts.deep_view() == front.push(renamed@));
            let out = FilePath { parts };
            assert(out@ == self@.drop_last().push(renamed@));
            out
        } else {
            self.clone()
        }
    }
}

/// The relative reference from one location to another.
pub trait PathDiff {
    /// The reference to `to` as it has to be written in `from`. Where `from`
    /// is a file, the reference starts at the directory that holds it. There
    /// is none between a rooted and an unrooted path, nor where `to` would
    /// have to pass a `..` of `from`.
    fn path_diff(from: &FilePath, to: &FilePath) -> (rel: Option<FilePath>)
        ensures
            opt_path(rel) == path_diff_of(from@, to@),
    ;
}

impl PathDiff for FilePath {
    fn path_diff(from: &FilePath, to: &FilePath) -> (rel: Option<FilePath>) {
        let base: FilePath = match from.extension() {
            Some(_) => {
                let mut parts = from.clone().parts;
                parts.pop();
                FilePath { parts }
            },
            None => from.clone(),
        };
        assert(base@ == base_of(from@));
        if to.is_absolute() != base.is_absolute() {
            return None;
        }
        let mut shared: usize = 0;
        assert(base@.skip(0) == base@);
        assert(to@.skip(0) == to@);
        while shared < base.parts.len() && shared < to.parts.len() && str_eq(
            base.parts[shared].as_str(),
            to.parts[shared].as_str(),
        )
            invariant
                shared <= base.parts.len(),
                shared <= to.parts.len(),
                common_len(base@, to@) == shared + common_len(
                    base@.skip(shared as int),
                    to@.skip(shared as int),
                ),
            decreases base.parts.len() - shared,
        {
            assert(base@.skip(shared as int).skip(1) == base@.skip(shared + 1));
            assert(to@.skip(shared as int).skip(1) == to@.skip(shared + 1));
            shared += 1;
        }
        assert(common_len(base@, to@) == shared);
        proof {
            reveal_strlit(".");
            reveal_strlit("..");
        }
        assert("."@ == cur_part());
        assert(".."@ == parent_part());
        let mut steps: Vec<String> = Vec::new();
        let mut at: usize = shared;
        let ghost goal = steps_between(base@.skip(shared as int), to@.skip(shared as int));
        assert(steps_after(Seq::empty(), goal) == goal) by {
            if goal is Some {
                assert(Seq::<Seq<char>>::empty() + goal->0 == goal->0);
            }
        }
        assert(goal == path_diff_of(from@, to@));
        loop
            invariant
                at <= base.parts.len(),
                at <= to.parts.len(),
                "."@ == cur_part(),
                ".."@ == parent_part(),
                goal == steps_after(
                    steps.deep_view(),
                    steps_between(base@.skip(at as int), to@.skip(at as int)),
                ),
                goal == path_diff_of(from@, to@),
            decreases base.parts.len() - at,
        {
            let ghost b = base@.skip(at as int);
            let ghost t = to@.skip(at as int);
            let ghost before = steps.deep_view();
            if at >= base.parts.len() {
                copy_parts(&mut steps, &to.parts, at);
                let rel = FilePath { parts: steps };
                assert(opt_path(Some(rel)) == goal);
                return Some(rel);
            } else if at >= to.parts.len() {
                push_parents(&mut steps, base.parts.len() - at);
                let rel = FilePath { parts: steps };
                assert(opt_path(Some(rel)) == goal);
                return Some(rel);
            } else if str_eq(base.parts[at].as_str(), ".") {
                steps.push(to.parts[at].clone());
                proof {
                    assert(steps.deep_view() == before.push(t[0]));
                    assert(b.skip(1) == base@.skip(at + 1));
                    assert(t.skip(1) == to@.skip(at + 1));
                    let rest = steps_between(b.skip(1), t.skip(1));
                    if rest is Some {
                        assert(before + (seq![t[0]] + rest->0) == before.push(t[0]) + rest->0);
                    }
                }
                at += 1;
            } else if str_eq(base.parts[at].as_str(), "..") {
                return None;
            } else {
                push_parents(&mut steps, base.parts.len() - at);
                copy_parts(&mut steps, &to.parts, at);
                let rel = FilePath { parts: steps };
                proof {
                    assert(before + parents(b.len()) + t == before + (parents(b.len()) + t));
                }
                assert(opt_path(Some(rel)) == goal);
                return Some(rel);
            }
        }
    }
}

/// The shared leading components are the same in both paths, and the
/// component behind them, where both have one, differs.
pub proof fn lemma_common_len(a: Seq<Seq<char>>, b: Seq<Seq<char>>)
    ensures
        common_len(a, b) <= a.len(),
        common_len(a, b) <= b.len(),
        a.take(common_len(a, b) as int) == b.take(common_len(a, b) as int),
        common_len(a, b) < a.len() && common_len(a, b) < b.len() ==> a[common_len(a, b) as int]
            != b[common_len(a, b) as int],
        a.len() > 0 && b.len() > 0 && a[0] == b[0] ==> common_len(a, b) >= 1,
    decreases a.len(),
{
    if a.len() > 0 && b.len() > 0 && a[0] == b[0] {
        lemma_common_len(a.skip(1), b.skip(1));
        let k = common_len(a.skip(1), b.skip(1)) as int;
        assert(a.take(k + 1) == seq![a[0]] + a.skip(1).take(k));
        assert(b.take(k + 1) == seq![b[0]] + b.skip(1).take(k));
    } else {
        assert(a.take(0) == b.take(0));
    }
}

/// Following two lists of steps one after the other is following their
/// concatenation.
pub proof fn lemma_resolved_concat(base: Seq<Seq<char>>, x: Seq<Seq<char>>, y: Seq<Seq<char>>)
    ensures
        resolved(base, x + y) == resolved(resolved(base, x), y),
    decreases y.len(),
{
    if y.len() == 0 {
        assert(x + y == x);
    } else {
        lemma_resolved_concat(base, x, y.drop_last());
        assert((x + y).drop_last() == x + y.drop_last());
        assert((x + y).last() == y.last());
    }
}

/// `n` steps up from a path that ends in `n` plain names leave those names.
pub proof fn lemma_resolved_parents(base: Seq<Seq<char>>, n: nat)
    requires
        n <= base.len(),
        forall|i: int| base.len() - n <= i < base.len() ==> is_normal(#[trigger] base[i]),
    ensures
        resolved(base, parents(n)) == base.take(base.len() - n),
    decreases n,
{
    if n == 0 {
        assert(parents(0) == Seq::<Seq<char>>::empty());
        assert(base.take(base.len() as int) == base);
    } else {
        lemma_resolved_parents(base, (n - 1) as nat);
        assert(parents(n).drop_last() == parents((n - 1) as nat));
        assert(parents(n).last() == parent_part());
        let at = base.take(base.len() - n + 1);
        assert(at.last() == base[base.len() - n]);
        assert(at.drop_last() == base.take(base.len() - n));
    }
}

/// Plain names lead down, one directory each.
pub proof fn lemma_resolved_names(base: Seq<Seq<char>>, names: Seq<Seq<char>>)
    requires
        forall|i: int| 0 <= i < names.len() ==> is_normal(#[trigger] names[i]),
    ensures
        resolved(base, names) == base + names,
    decreases names.len(),
{
    if names.len() == 0 {
        assert(base + names == base);
    } else {
        lemma_resolved_names(base, names.drop_last());
        assert(base + names == (base + names.drop_last()).push(names.last()));
        assert(is_normal(names[names.len() - 1]));
    }
}

/// Between two paths without `.` and `..` that are both rooted or both not
/// there is always a relative path, and following it from the first leads to
/// the second.
pub proof fn lemma_relative_resolves(base: Seq<Seq<char>>, target: Seq<Seq<char>>)
    requires
        is_plain(base),
        is_plain(target),
        is_rooted(base) == is_rooted(target),
    ensures
        relative(base, target) is Some,
        resolved(base, relative(base, target)->0) == target,
{
    lemma_common_len(base, target);
    let k = common_len(base, target) as int;
    let b = base.skip(k);
    let t = target.skip(k);
    assert forall|i: int| 0 <= i < b.len() implies is_normal(#[trigger] b[i]) by {
        assert(is_normal(base[i + k]) || (i + k == 0 && base[i + k] == root_part()));
    }
    assert forall|i: int| 0 <= i < t.len() implies is_normal(#[trigger] t[i]) by {
        assert(is_normal(target[i + k]) || (i + k == 0 && target[i + k] == root_part()));
    }
    let steps = parents(b.len()) + t;
    assert(steps_between(b, t) == Some(steps)) by {
        if b.len() == 0 {
            assert(parents(0) + t == t);
        } else if t.len() == 0 {
            assert(parents(b.len()) + t == parents(b.len()));
        } else {
            assert(is_normal(b[0]));
        }
    }
    lemma_resolved_concat(base, parents(b.len()), t);
    assert forall|i: int| base.len() - b.len() <= i < base.len() implies is_normal(
        #[trigger] base[i],
    ) by {
        assert(base[i] == b[i - k]);
    }
    lemma_resolved_parents(base, b.len());
    lemma_resolved_names(base.take(k), t);
    assert(target.take(k) + target.skip(k) == target);
}

/// A reference written in a file leads, from the directory of that file, to
/// what it refers to: for every two paths without `.` and `..` that are both
/// rooted or both not, `path_diff_of` has an answer and it resolves to `to`.
pub proof fn lemma_path_diff_resolves(from: Seq<Seq<char>>, to: Seq<Seq<char>>)
    requires
        is_plain(from),
        is_plain(to),
        is_rooted(from) == is_rooted(to),
    ensures
        path_diff_of(from, to) is Some,
        resolved(base_of(from), path_diff_of(from, to)->0) == to,
{
    let base = base_of(from);
    if extension_of(from) is Some {
        assert(is_normal(from.last()));
        assert forall|i: int| 0 <= i < base.len() implies (#[trigger] is_normal(base[i]) || (i == 0
            && base[i] == root_part())) by {
            assert(base[i] == from[i]);
            assert(is_normal(from[i]) || (i == 0 && from[i] == root_part()));
        }
        if is_rooted(from) {
            assert(from[0] == root_part());
            assert(from.len() >= 2);
            assert(base[0] == from[0]);
        }
    }
    lemma_relative_resolves(base, to);
}

} // verus!
