//! Paths relative to a directory.
//!
//! A path is compared part by part: repeated and closing separators do not count,
//! nor does `.`, except at the very beginning.

use crate::paths::{
    component_use, components, from_chars, has_char, joined, lemma_components, save_path,
    save_path_from, slashed, to_chars, with_component, ComponentUse,
};
use vstd::prelude::*;

verus! {

/// A path that is read from its beginning: the parts that are complete, and the
/// characters of the one that is not.
#[verifier::ext_equal]
pub struct PathScan {
    pub parts: Seq<Seq<char>>,
    pub current: Seq<char>,
    /// Whether anything was read.
    pub started: bool,
}

impl PathScan {
    /// The parts, with the last one completed.
    pub open spec fn finished(self) -> Seq<Seq<char>> {
        if self.current.len() == 0 || (self.current == seq!['.'] && self.parts.len() > 0) {
            self.parts
        } else {
            self.parts.push(self.current)
        }
    }

    /// What one more character makes of it.
    pub open spec fn with(self, character: char) -> PathScan {
        if character != '/' {
            PathScan { current: self.current.push(character), started: true, ..self }
        } else if !self.started {
            PathScan { parts: seq![seq!['/']], current: Seq::empty(), started: true }
        } else {
            PathScan { parts: self.finished(), current: Seq::empty(), started: true }
        }
    }
}

/// A scan at the start of a path.
pub open spec fn nothing_read() -> PathScan {
    PathScan { parts: Seq::empty(), current: Seq::empty(), started: false }
}

/// What reading on makes of a path.
pub open spec fn scanned(from: PathScan, text: Seq<char>) -> PathScan
    decreases text.len(),
{
    if text.len() == 0 {
        from
    } else {
        scanned(from, text.drop_last()).with(text.last())
    }
}

/// The parts of a path. The first one of an absolute path is its root.
pub open spec fn path_parts(path: Seq<char>) -> Seq<Seq<char>> {
    scanned(nothing_read(), path).finished()
}

/// The path with these parts.
pub open spec fn joined_parts(parts: Seq<Seq<char>>) -> Seq<char>
    decreases parts.len(),
{
    if parts.len() == 0 {
        Seq::empty()
    } else {
        with_component(joined_parts(parts.drop_last()), parts.last())
    }
}

/// A path as seen from a directory, where it lies in that directory.
pub open spec fn stripped(directory: Seq<char>, path: Seq<char>) -> Option<Seq<char>> {
    let root = path_parts(directory);
    let parts = path_parts(path);
    if root.is_prefix_of(parts) {
        Some(joined_parts(parts.skip(root.len() as int)))
    } else {
        None
    }
}

/// The parts of a path, as characters.
pub open spec fn views(parts: Seq<Vec<char>>) -> Seq<Seq<char>> {
    parts.map_values(|part: Vec<char>| part@)
}

fn is_dot(part: &Vec<char>) -> (result: bool)
    ensures
        result == (part@ == seq!['.']),
{
    let result = part.len() == 1 && part[0] == '.';
    assert(result ==> part@ =~= seq!['.']);
    result
}

/// Splits a path into its parts.
fn split_parts(path: &[char]) -> (result: Vec<Vec<char>>)
    ensures
        views(result@) == path_parts(path@),
{
    let mut parts: Vec<Vec<char>> = Vec::new();
    let mut current: Vec<char> = Vec::new();
    let mut index: usize = 0;
    assert(views(parts@) =~= Seq::<Seq<char>>::empty());
    assert(path@.take(0) =~= Seq::<char>::empty());
    while index < path.len()
        invariant
            index <= path@.len(),
            scanned(nothing_read(), path@.take(index as int)) == (PathScan {
                parts: views(parts@),
                current: current@,
                started: index > 0,
            }),
        decreases path@.len() - index,
    {
        let ghost before = parts@;
        proof {
            assert(path@.take(index + 1).drop_last() =~= path@.take(index as int));
            assert(path@.take(index + 1).last() == path@[index as int]);
        }
        if path[index] != '/' {
            current.push(path[index]);
        } else if index == 0 {
            let mut root: Vec<char> = Vec::new();
            root.push('/');
            parts.push(root);
            assert(root@ =~= seq!['/']);
            assert(views(parts@) =~= seq![seq!['/']]);
            assert(current@ =~= Seq::<char>::empty());
        } else {
            if current.len() > 0 && !(is_dot(&current) && parts.len() > 0) {
                let ghost part = current@;
                parts.push(current);
                assert(views(parts@) =~= views(before).push(part));
            }
            current = Vec::new();
            assert(current@ =~= Seq::<char>::empty());
        }
        index = index + 1;
    }
    assert(path@.take(index as int) =~= path@);
    if current.len() > 0 && !(is_dot(&current) && parts.len() > 0) {
        let ghost before = parts@;
        let ghost part = current@;
        parts.push(current);
        assert(views(parts@) =~= views(before).push(part));
    }
    parts
}

/// The last part of a path.
pub fn last_part(path: &str) -> (part: Option<Vec<char>>)
    ensures
        match part {
            Some(part) => path_parts(path@).len() > 0 && part@ == path_parts(path@).last(),
            None => path_parts(path@).len() == 0,
        },
{
    let chars: Vec<char> = to_chars(path);
    let mut parts = split_parts(chars.as_slice());
    let ghost all = parts@;
    assert(views(all).len() == all.len());
    assert(all.len() > 0 ==> views(all).last() == all.last()@);
    parts.pop()
}

fn same_chars(left: &Vec<char>, right: &Vec<char>) -> (result: bool)
    ensures
        result == (left@ == right@),
{
    if left.len() != right.len() {
        return false;
    }
    let mut index: usize = 0;
    while index < left.len()
        invariant
            index <= left@.len(),
            left@.len() == right@.len(),
            left@.take(index as int) == right@.take(index as int),
        decreases left@.len() - index,
    {
        if left[index] != right[index] {
            assert(left@[index as int] != right@[index as int]);
            return false;
        }
        assert(left@.take(index + 1) =~= left@.take(index as int).push(left@[index as int]));
        assert(right@.take(index + 1) =~= right@.take(index as int).push(right@[index as int]));
        index = index + 1;
    }
    assert(left@.take(index as int) =~= left@);
    assert(right@.take(index as int) =~= right@);
    true
}

/// Makes a path relative to a directory that it lies in.
pub fn strip_directory(directory: &str, path: &str) -> (result: Option<String>)
    ensures
        match stripped(directory@, path@) {
            Some(expected) => result matches Some(text) && text@ == expected,
            None => result is None,
        },
{
    let directory_chars: Vec<char> = to_chars(directory);
    let path_chars: Vec<char> = to_chars(path);
    let root = split_parts(directory_chars.as_slice());
    let parts = split_parts(path_chars.as_slice());
    let ghost all = views(parts@);
    if root.len() > parts.len() {
        assert(views(root@).len() > all.len());
        return None;
    }
    let mut index: usize = 0;
    while index < root.len()
        invariant
            index <= root@.len() <= parts@.len(),
            all == views(parts@),
            views(root@).take(index as int) == all.take(index as int),
            stripped(directory@, path@) == (if views(root@).is_prefix_of(all) {
                Some(joined_parts(all.skip(root@.len() as int)))
            } else {
                None
            }),
        decreases root@.len() - index,
    {
        if !same_chars(&root[index], &parts[index]) {
            assert(views(root@)[index as int] != all[index as int]);
            assert(all.subrange(0, views(root@).len() as int)[index as int] == all[index as int]);
            return None;
        }
        assert(views(root@).take(index + 1) =~= views(root@).take(index as int).push(
            views(root@)[index as int],
        ));
        assert(all.take(index + 1) =~= all.take(index as int).push(all[index as int]));
        index = index + 1;
    }
    proof {
        assert(views(root@).take(index as int) =~= views(root@));
        assert(views(root@).is_prefix_of(all));
    }
    let text = join_parts(&parts, root.len(), parts.len());
    assert(all.subrange(root@.len() as int, all.len() as int) =~= all.skip(root@.len() as int));
    Some(from_chars(text.as_slice()))
}

/// The directory that a path lies in. Neither the root nor an empty path has one.
pub open spec fn parent_of(path: Seq<char>) -> Option<Seq<char>> {
    let parts = path_parts(path);
    if parts.len() == 0 || parts.last() == seq!['/'] {
        None
    } else if parts[0] == seq!['/'] {
        Some(seq!['/'] + joined_parts(parts.subrange(1, parts.len() - 1)))
    } else {
        Some(joined_parts(parts.drop_last()))
    }
}

fn is_root(part: &Vec<char>) -> (result: bool)
    ensures
        result == (part@ == seq!['/']),
{
    let result = part.len() == 1 && part[0] == '/';
    assert(result ==> part@ =~= seq!['/']);
    result
}

/// Joins some of the parts of a path.
fn join_parts(parts: &Vec<Vec<char>>, from: usize, to: usize) -> (text: Vec<char>)
    requires
        from <= to <= parts@.len(),
    ensures
        text@ == joined_parts(views(parts@).subrange(from as int, to as int)),
{
    let mut text: Vec<char> = Vec::new();
    let mut next: usize = from;
    let ghost all = views(parts@);
    assert(all.subrange(from as int, from as int) =~= Seq::<Seq<char>>::empty());
    assert(text@ =~= Seq::<char>::empty());
    while next < to
        invariant
            from <= next <= to <= parts@.len(),
            all == views(parts@),
            text@ == joined_parts(all.subrange(from as int, next as int)),
        decreases to - next,
    {
        let ghost before = text@;
        proof {
            let longer = all.subrange(from as int, next + 1);
            assert(longer.drop_last() =~= all.subrange(from as int, next as int));
            assert(longer.last() == parts@[next as int]@);
        }
        if text.len() > 0 {
            text.push('/');
        }
        text.extend_from_slice(parts[next].as_slice());
        assert(text@ =~= with_component(before, parts@[next as int]@));
        next = next + 1;
    }
    text
}

/// Finds the directory that a path lies in.
pub fn parent_directory(path: &str) -> (directory: Option<String>)
    ensures
        match parent_of(path@) {
            Some(expected) => directory matches Some(text) && text@ == expected,
            None => directory is None,
        },
{
    let chars: Vec<char> = to_chars(path);
    let parts = split_parts(chars.as_slice());
    let ghost all = views(parts@);
    if parts.len() == 0 {
        assert(all.len() == 0);
        return None;
    }
    let count: usize = parts.len();
    assert(all.last() == parts@[count - 1]@);
    if is_root(&parts[count - 1]) {
        return None;
    }
    assert(all[0] == parts@[0]@);
    if is_root(&parts[0]) {
        let rest = join_parts(&parts, 1, count - 1);
        let mut text: Vec<char> = Vec::new();
        text.push('/');
        text.extend_from_slice(rest.as_slice());
        assert(text@ =~= seq!['/'] + rest@);
        Some(from_chars(text.as_slice()))
    } else {
        let text = join_parts(&parts, 0, count - 1);
        assert(all.subrange(0, count - 1) =~= all.drop_last());
        Some(from_chars(text.as_slice()))
    }
}

// Saved files.

/// Whether two paths have the same parts.
pub open spec fn same_path(left: Seq<char>, right: Seq<char>) -> bool {
    path_parts(left) == path_parts(right)
}

/// Whether parts can stand for themselves in a path.
pub open spec fn plain(parts: Seq<Seq<char>>) -> bool {
    forall|i: int| 0 <= i < parts.len() ==> plain_part(#[trigger] parts[i])
}

/// Whether a part names an entry of a directory.
pub open spec fn plain_part(part: Seq<char>) -> bool {
    part.len() > 0 && part != seq!['.'] && !has_char(part, '/')
}

proof fn lemma_scan_in_two(from: PathScan, first: Seq<char>, second: Seq<char>)
    ensures
        scanned(from, first + second) == scanned(scanned(from, first), second),
    decreases second.len(),
{
    if second.len() == 0 {
        assert(first + second =~= first);
    } else {
        assert((first + second).drop_last() =~= first + second.drop_last());
        assert((first + second).last() == second.last());
        lemma_scan_in_two(from, first, second.drop_last());
    }
}

proof fn lemma_scan_part(from: PathScan, part: Seq<char>)
    requires
        !has_char(part, '/'),
    ensures
        scanned(from, part) == (PathScan {
            current: from.current + part,
            started: from.started || part.len() > 0,
            ..from
        }),
    decreases part.len(),
{
    if part.len() == 0 {
        assert(from.current + part =~= from.current);
    } else {
        let shorter = part.drop_last();
        assert(part[part.len() - 1] != '/');
        assert(!has_char(shorter, '/')) by {
            if has_char(shorter, '/') {
                let i = choose|i: int| 0 <= i < shorter.len() && #[trigger] shorter[i] == '/';
                assert(part[i] == '/');
            }
        }
        lemma_scan_part(from, shorter);
        assert(from.current + part =~= (from.current + shorter).push(part.last()));
    }
}

/// Whether parts can stand for themselves behind other parts, or at the beginning
/// of a path, where `.` can too.
pub open spec fn fitting(parts: Seq<Seq<char>>, at_beginning: bool) -> bool {
    forall|i: int|
        0 <= i < parts.len() ==> plain_part(#[trigger] parts[i]) || (i == 0 && at_beginning
            && parts[i] == seq!['.'])
}

pub proof fn lemma_scan_parts(from: PathScan, parts: Seq<Seq<char>>)
    requires
        fitting(parts, from.parts.len() == 0),
        from.current.len() == 0,
        parts.len() > 0,
        from.started || from.parts.len() == 0,
    ensures
        joined_parts(parts).len() > 0,
        scanned(from, joined_parts(parts)).started,
        scanned(from, joined_parts(parts)).finished() == from.parts + parts,
    decreases parts.len(),
{
    let last = parts.last();
    let earlier = parts.drop_last();
    assert(plain_part(parts[parts.len() - 1]) || last == seq!['.']);
    assert(!has_char(last, '/'));
    assert(from.current + last =~= last);
    if parts.len() == 1 {
        assert(joined_parts(earlier) =~= Seq::<char>::empty());
        lemma_scan_part(from, last);
        assert(from.parts + parts =~= from.parts.push(last));
    } else {
        assert(fitting(earlier, from.parts.len() == 0)) by {
            assert forall|i: int| 0 <= i < earlier.len() implies plain_part(#[trigger] earlier[i])
                || (i == 0 && from.parts.len() == 0 && earlier[i] == seq!['.']) by {
                assert(earlier[i] == parts[i]);
            }
        }
        lemma_scan_parts(from, earlier);
        let text = joined_parts(earlier);
        let between = text.push('/');
        assert(between.drop_last() =~= text);
        let middle = scanned(from, between);
        assert(middle == scanned(from, text).with('/'));
        lemma_scan_in_two(from, between, last);
        lemma_scan_part(middle, last);
        assert(middle.current + last =~= last);
        assert(from.parts + parts =~= (from.parts + earlier).push(last));
    }
}

/// Joining parts to a directory adds them to its own.
pub proof fn lemma_joined_parts(directory: Seq<char>, parts: Seq<Seq<char>>)
    requires
        fitting(parts, path_parts(directory).len() == 0),
        parts.len() > 0,
    ensures
        path_parts(joined(directory, joined_parts(parts))) == path_parts(directory) + parts,
{
    let root = path_parts(directory);
    let start = nothing_read();
    let path = joined_parts(parts);
    if directory.len() == 0 {
        lemma_scan_parts(start, parts);
        assert(root =~= Seq::<Seq<char>>::empty());
    } else {
        let opened = if directory.last() == '/' {
            directory
        } else {
            directory.push('/')
        };
        assert(directory.push('/').drop_last() =~= directory);
        let middle = scanned(start, opened);
        assert(scanned(start, directory).started);
        assert(middle.current.len() == 0);
        assert(middle.parts =~= root);
        lemma_scan_parts(middle, parts);
        lemma_scan_in_two(start, opened, path);
    }
    assert(path_parts(joined(directory, path)) =~= root + parts);
}

/// A path below a directory is seen from that directory as what was added.
proof fn lemma_stripped_parts(directory: Seq<char>, parts: Seq<Seq<char>>)
    requires
        plain(parts),
        parts.len() > 0,
    ensures
        stripped(directory, joined(directory, joined_parts(parts))) == Some(joined_parts(parts)),
{
    let root = path_parts(directory);
    lemma_joined_parts(directory, parts);
    let all = path_parts(joined(directory, joined_parts(parts)));
    assert(root.is_prefix_of(all));
    assert(all.skip(root.len() as int) =~= parts);
}

/// What can be among the parts of a path: its root or `.` at the beginning, and
/// names.
pub open spec fn regular(parts: Seq<Seq<char>>) -> bool {
    forall|i: int|
        0 <= i < parts.len() ==> plain_part(#[trigger] parts[i]) || (i == 0 && (parts[i]
            == seq!['.'] || parts[i] == seq!['/']))
}

proof fn lemma_scan_is_regular(text: Seq<char>)
    ensures
        ({
            let scan = scanned(nothing_read(), text);
            &&& regular(scan.parts)
            &&& regular(scan.finished())
            &&& !has_char(scan.current, '/')
        }),
    decreases text.len(),
{
    let scan = scanned(nothing_read(), text);
    if text.len() > 0 {
        let before = scanned(nothing_read(), text.drop_last());
        lemma_scan_is_regular(text.drop_last());
        if text.last() != '/' {
            assert(!has_char(scan.current, '/')) by {
                if has_char(scan.current, '/') {
                    let i = choose|i: int|
                        0 <= i < scan.current.len() && #[trigger] scan.current[i] == '/';
                    assert(i < before.current.len());
                    assert(before.current[i] == '/');
                }
            }
        }
    }
    assert forall|i: int| 0 <= i < scan.finished().len() implies plain_part(
        #[trigger] scan.finished()[i],
    ) || (i == 0 && (scan.finished()[i] == seq!['.'] || scan.finished()[i] == seq!['/'])) by {
        if i < scan.parts.len() {
            assert(scan.finished()[i] == scan.parts[i]);
        }
    }
}

proof fn lemma_first_character(parts: Seq<Seq<char>>)
    requires
        parts.len() > 0,
        parts[0].len() > 0,
    ensures
        joined_parts(parts).len() > 0,
        joined_parts(parts)[0] == parts[0][0],
    decreases parts.len(),
{
    let earlier = parts.drop_last();
    if parts.len() == 1 {
        assert(joined_parts(earlier) =~= Seq::<char>::empty());
    } else {
        assert(earlier[0] == parts[0]);
        lemma_first_character(earlier);
    }
}

/// A path that lies in a directory is the same path when what is seen of it from
/// there is joined to the directory again.
pub proof fn law_stripping_is_undone_by_joining(directory: Seq<char>, path: Seq<char>)
    ensures
        stripped(directory, path) matches Some(relative) ==> (relative.len() > 0 && relative[0]
            != '/' ==> same_path(joined(directory, relative), path)),
{
    let root = path_parts(directory);
    let parts = path_parts(path);
    let rest = parts.skip(root.len() as int);
    if root.is_prefix_of(parts) && joined_parts(rest).len() > 0 && joined_parts(rest)[0] != '/' {
        lemma_scan_is_regular(path);
        if rest.len() == 0 {
            assert(joined_parts(rest) =~= Seq::<char>::empty());
        }
        assert(fitting(rest, root.len() == 0)) by {
            assert forall|i: int| 0 <= i < rest.len() implies plain_part(#[trigger] rest[i]) || (i
                == 0 && root.len() == 0 && rest[i] == seq!['.']) by {
                assert(rest[i] == parts[root.len() + i]);
                if root.len() == 0 && i == 0 && rest[0] == seq!['/'] {
                    lemma_first_character(rest);
                }
            }
        }
        lemma_joined_parts(directory, rest);
        assert(root + rest =~= parts) by {
            assert(parts.subrange(0, root.len() as int) =~= root);
        }
    }
}

/// The parts of a saved file's path, from a component of its name on.
pub open spec fn kept_parts(components: Seq<Seq<char>>, index: int) -> Seq<Seq<char>>
    decreases components.len() - index,
{
    if index < 0 || index >= components.len() {
        Seq::empty()
    } else {
        match component_use(components[index], index) {
            ComponentUse::Keep(part) => seq![part] + kept_parts(components, index + 1),
            _ => kept_parts(components, index + 1),
        }
    }
}

proof fn lemma_kept_parts(components: Seq<Seq<char>>, index: int, done: Seq<Seq<char>>)
    requires
        0 <= index,
        plain(done),
        forall|i: int| 0 <= i < components.len() ==> !has_char(#[trigger] components[i], '/'),
    ensures
        save_path_from(components, index, joined_parts(done)) matches Some(path) ==> {
            let parts = done + kept_parts(components, index);
            plain(parts) && parts.len() > 0 && path == joined_parts(parts)
        },
    decreases components.len() - index,
{
    if index >= components.len() {
        assert(done + kept_parts(components, index) =~= done);
        if done.len() == 0 {
            assert(joined_parts(done) =~= Seq::<char>::empty());
        }
    } else {
        match component_use(components[index], index) {
            ComponentUse::Skip => {
                lemma_kept_parts(components, index + 1, done);
            },
            ComponentUse::Reject => {},
            ComponentUse::Keep(part) => {
                let component = components[index];
                assert(!has_char(component, '/'));
                assert(plain_part(part)) by {
                    if part != component {
                        assert(part =~= component.take(1));
                        assert(part.len() == 1 && part[0] == component[0]);
                    }
                }
                let more = done.push(part);
                assert(plain(more)) by {
                    assert forall|i: int| 0 <= i < more.len() implies plain_part(
                        #[trigger] more[i],
                    ) by {
                        if i < done.len() {
                            assert(plain_part(done[i]));
                        }
                    }
                }
                assert(more.drop_last() =~= done);
                lemma_kept_parts(components, index + 1, more);
                assert(more + kept_parts(components, index + 1) =~= done + kept_parts(
                    components,
                    index,
                ));
            },
        }
    }
}

/// A saved file is found again from its directory: seen from there, its path is the
/// one that was joined to the directory.
pub proof fn law_saved_paths_are_relative_to_their_directory(directory: Seq<char>, name: Seq<char>)
    ensures
        save_path(name) matches Some(path) ==> stripped(directory, joined(directory, path))
            == Some(path),
{
    let all = components(slashed(name));
    lemma_components(slashed(name), 0, 0);
    assert(joined_parts(Seq::empty()) =~= Seq::<char>::empty());
    lemma_kept_parts(all, 0, Seq::empty());
    let parts = Seq::<Seq<char>>::empty() + kept_parts(all, 0);
    if save_path(name) is Some {
        lemma_stripped_parts(directory, parts);
    }
}

} // verus!
