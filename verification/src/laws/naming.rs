//! Which files names and patterns stand for.

use crate::error::SimulatorError;
use crate::laws::blocks::{law_blocks_are_written, lemma_run, lies_at};
use crate::laws::places::{same_besides, spot, together};
use crate::memory::Memory;
use crate::paths::{
    component_use, components, components_from, glob, has_char, has_parent, host_file_path, joined,
    last_slash, law_search_finds_matching_names, lemma_glob_star, normalized_pattern, save_path,
    save_path_from, search_directory, search_file_pattern, search_matches, slashed, with_component,
    without_drive, without_leading_slashes,
};
use crate::search::{
    dictionary_le, lowered, name_bytes, name_field, name_le, search_begun, search_continued,
    selected, HostEntry, SearchTable,
};
use vstd::prelude::*;

verus! {

/// Whether a byte of a pattern stands for a byte of a name: it is a question mark, the
/// same byte, or the same letter in the other case.
pub open spec fn fits(pattern: u8, name: u8) -> bool {
    ||| pattern as char == '?'
    ||| pattern == name
    ||| 'A' <= pattern as char <= 'Z' && name == pattern + 32
    ||| 'A' <= name as char <= 'Z' && pattern == name + 32
}

/// Whether a text has no star.
pub open spec fn starless(text: Seq<u8>) -> bool {
    forall|i: int| 0 <= i < text.len() ==> #[trigger] text[i] as char != '*'
}

/// Whether a pattern without stars stands for a part of a name, byte by byte.
pub open spec fn fits_at(pattern: Seq<u8>, name: Seq<u8>, at: int) -> bool {
    &&& 0 <= at <= name.len() - pattern.len()
    &&& forall|i: int| 0 <= i < pattern.len() ==> fits(#[trigger] pattern[i], name[at + i])
}

proof fn lemma_starless(pattern: Seq<u8>, name: Seq<u8>)
    requires
        starless(pattern),
    ensures
        glob(pattern, name) <==> pattern.len() == name.len() && fits_at(pattern, name, 0),
    decreases pattern.len(),
{
    if pattern.len() > 0 {
        assert(pattern[0] as char != '*');
        if name.len() > 0 {
            let rest = pattern.skip(1);
            let left = name.skip(1);
            assert(starless(rest));
            lemma_starless(rest, left);
            if pattern.len() == name.len() && fits_at(pattern, name, 0) {
                assert(fits(pattern[0], name[0]));
                assert forall|i: int| 0 <= i < rest.len() implies fits(
                    #[trigger] rest[i],
                    left[0 + i],
                ) by {
                    assert(fits(pattern[i + 1], name[0 + (i + 1)]));
                }
            }
            if glob(pattern, name) {
                assert forall|i: int| 0 <= i < pattern.len() implies fits(
                    #[trigger] pattern[i],
                    name[0 + i],
                ) by {
                    if i > 0 {
                        assert(fits(rest[i - 1], left[0 + (i - 1)]));
                    }
                }
            }
        }
    }
}

/// A pattern without stars stands for the names of its length that fit it byte by byte.
pub proof fn law_patterns_without_stars(pattern: Seq<u8>, name: Seq<u8>)
    requires
        starless(pattern),
        starless(name),
    ensures
        search_matches(pattern, name) <==> pattern.len() == name.len() && fits_at(pattern, name, 0),
{
    assert forall|i: int| 0 <= i < name.len() implies #[trigger] name[i] != 0x2a by {
        assert(name[i] as char != '*');
    }
    law_search_finds_matching_names(pattern, name);
    if pattern == seq![0x2au8, 0x2e, 0x2a] {
        assert(pattern[0] as char == '*');
    }
    lemma_starless(pattern, name);
}

proof fn lemma_prefix_star(head: Seq<u8>, tail: Seq<u8>, name: Seq<u8>)
    requires
        starless(head),
    ensures
        glob(head + seq![0x2au8] + tail, name) <==> {
            &&& fits_at(head, name, 0)
            &&& exists|k: int|
                head.len() <= k <= name.len() && #[trigger] glob(tail, name.skip(k))
        },
    decreases head.len(),
{
    let pattern = head + seq![0x2au8] + tail;
    if head.len() == 0 {
        assert(pattern.skip(1) =~= tail);
        assert(name.skip(0) =~= name);
        lemma_glob_star(pattern, name, 0);
    } else {
        assert(pattern[0] == head[0]);
        assert(head[0] as char != '*');
        if name.len() > 0 {
            let rest = head.skip(1);
            let left = name.skip(1);
            assert(starless(rest));
            assert(pattern.skip(1) =~= rest + seq![0x2au8] + tail);
            lemma_prefix_star(rest, tail, left);
            if glob(pattern, name) {
                assert forall|i: int| 0 <= i < head.len() implies fits(
                    #[trigger] head[i],
                    name[0 + i],
                ) by {
                    if i > 0 {
                        assert(fits(rest[i - 1], left[0 + (i - 1)]));
                    }
                }
                let k = choose|k: int|
                    rest.len() <= k <= left.len() && #[trigger] glob(tail, left.skip(k));
                assert(left.skip(k) =~= name.skip(k + 1));
                assert(glob(tail, name.skip(k + 1)));
            }
            if fits_at(head, name, 0) && exists|k: int|
                head.len() <= k <= name.len() && #[trigger] glob(tail, name.skip(k)) {
                assert(fits(head[0], name[0]));
                assert forall|i: int| 0 <= i < rest.len() implies fits(
                    #[trigger] rest[i],
                    left[0 + i],
                ) by {
                    assert(fits(head[i + 1], name[0 + (i + 1)]));
                }
                let k = choose|k: int|
                    head.len() <= k <= name.len() && #[trigger] glob(tail, name.skip(k));
                assert(left.skip(k - 1) =~= name.skip(k));
                assert(glob(tail, left.skip(k - 1)));
            }
        }
    }
}

/// A pattern with one star stands for the names that begin as what is before it and end as
/// what is behind it; `*.*` stands for all names.
pub proof fn law_patterns_with_one_star(head: Seq<u8>, tail: Seq<u8>, name: Seq<u8>)
    requires
        starless(head),
        starless(tail),
        starless(name),
    ensures
        search_matches(head + seq!['*' as u8] + tail, name) <==> {
            &&& name.len() >= head.len() + tail.len()
            &&& fits_at(head, name, 0)
            &&& fits_at(tail, name, name.len() - tail.len())
        },
        search_matches(seq!['*' as u8, '.' as u8, '*' as u8], name),
{
    let pattern = head + seq![0x2au8] + tail;
    assert forall|i: int| 0 <= i < name.len() implies #[trigger] name[i] != 0x2a by {
        assert(name[i] as char != '*');
    }
    law_search_finds_matching_names(pattern, name);
    law_search_finds_matching_names(seq![0x2au8, 0x2e, 0x2a], name);
    assert(name.skip(0) =~= name);
    let every = seq![0x2au8];
    assert(every.skip(1) =~= Seq::<u8>::empty());
    lemma_glob_star(every, name, 0);
    assert(glob(every.skip(1), name.skip(name.len() as int)));
    let all = seq![0x2au8, 0x2e, 0x2a];
    if pattern == all {
        assert(pattern[2] == all[2] && pattern[0] == all[0]);
        if head.len() == 0 {
            assert(pattern =~= seq![0x2au8] + tail);
            assert(all.len() == 3);
            assert(tail.len() == 2);
            assert(tail[1] == pattern[2]);
            assert(tail[1] as char == '*');
        } else {
            assert(head[0] == pattern[0]);
            assert(head[0] as char == '*');
        }
    }
    lemma_prefix_star(head, tail, name);
    let end = name.len() - tail.len();
    if glob(pattern, name) {
        let k = choose|k: int| head.len() <= k <= name.len() && #[trigger] glob(tail, name.skip(k));
        lemma_starless(tail, name.skip(k));
        assert(k == end);
        assert forall|i: int| 0 <= i < tail.len() implies fits(
            #[trigger] tail[i],
            name[end + i],
        ) by {
            assert(fits(tail[i], name.skip(k)[0 + i]));
        }
    }
    if name.len() >= head.len() + tail.len() && fits_at(head, name, 0) && fits_at(
        tail,
        name,
        end,
    ) {
        lemma_starless(tail, name.skip(end));
        assert forall|i: int| 0 <= i < tail.len() implies fits(
            #[trigger] tail[i],
            name.skip(end)[0 + i],
        ) by {
            assert(fits(tail[i], name[end + i]));
        }
        assert(glob(tail, name.skip(end)));
    }
}

/// A pattern with a star stands for the names that begin as what is before the first one
/// and go on, from some place behind that, as what is behind it.
pub proof fn law_patterns_with_stars(head: Seq<u8>, tail: Seq<u8>, name: Seq<u8>)
    requires
        starless(head),
        starless(name),
        head + seq!['*' as u8] + tail != seq!['*' as u8, '.' as u8, '*' as u8],
        tail != seq!['*' as u8, '.' as u8, '*' as u8],
    ensures
        search_matches(head + seq!['*' as u8] + tail, name) <==> {
            &&& fits_at(head, name, 0)
            &&& exists|k: int|
                head.len() <= k <= name.len() && #[trigger] search_matches(tail, name.skip(k))
        },
{
    assert forall|i: int| 0 <= i < name.len() implies #[trigger] name[i] != 0x2a by {
        assert(name[i] as char != '*');
    }
    law_search_finds_matching_names(head + seq![0x2au8] + tail, name);
    lemma_prefix_star(head, tail, name);
    assert forall|k: int| 0 <= k <= name.len() implies #[trigger] search_matches(tail, name.skip(k))
        == glob(tail, name.skip(k)) by {
        law_search_finds_matching_names(tail, name.skip(k));
    }
    if exists|k: int| head.len() <= k <= name.len() && #[trigger] glob(tail, name.skip(k)) {
        let k = choose|k: int| head.len() <= k <= name.len() && #[trigger] glob(tail, name.skip(k));
        assert(search_matches(tail, name.skip(k)));
    }
    if exists|k: int| head.len() <= k <= name.len() && #[trigger] search_matches(tail, name.skip(k)) {
        let k = choose|k: int|
            head.len() <= k <= name.len() && #[trigger] search_matches(tail, name.skip(k));
        assert(glob(tail, name.skip(k)));
    }
}

/// Whether one text is another with a slash for every backslash.
pub open spec fn with_slashes(text: Seq<char>, after: Seq<char>) -> bool {
    &&& after.len() == text.len()
    &&& forall|i: int|
        0 <= i < text.len() ==> {
            &&& #[trigger] text[i] == '\\' ==> after[i] == '/'
            &&& text[i] != '\\' ==> after[i] == text[i]
        }
}

/// Whether one of the parts between slashes is two dots.
pub open spec fn climbs(text: Seq<char>) -> bool {
    exists|i: int|
        {
            &&& 0 <= i <= text.len() - 2
            &&& #[trigger] text[i] == '.' && text[i + 1] == '.'
            &&& i > 0 ==> text[i - 1] == '/'
            &&& i + 2 < text.len() ==> text[i + 2] == '/'
        }
}

pub proof fn lemma_climbs(text: Seq<char>)
    ensures
        has_parent(text) <==> climbs(text),
{
    if has_parent(text) {
        let i = choose|i: int| #[trigger] crate::paths::parent_at(text, i);
        assert(text[i] == '.');
    }
    if climbs(text) {
        let i = choose|i: int|
            {
                &&& 0 <= i <= text.len() - 2
                &&& #[trigger] text[i] == '.' && text[i + 1] == '.'
                &&& i > 0 ==> text[i - 1] == '/'
                &&& i + 2 < text.len() ==> text[i + 2] == '/'
            };
        assert(crate::paths::parent_at(text, i));
    }
}

proof fn lemma_leading_slashes(text: Seq<char>) -> (dropped: int)
    ensures
        0 <= dropped <= text.len(),
        without_leading_slashes(text) == text.skip(dropped),
        forall|i: int| 0 <= i < dropped ==> #[trigger] text[i] == '/',
        dropped < text.len() ==> text[dropped] != '/',
    decreases text.len(),
{
    if text.len() > 0 && text[0] == '/' {
        let rest = text.skip(1);
        let dropped = lemma_leading_slashes(rest);
        assert(rest.skip(dropped) =~= text.skip(dropped + 1));
        assert forall|i: int| 0 <= i < dropped + 1 implies #[trigger] text[i] == '/' by {
            if i > 0 {
                assert(rest[i - 1] == '/');
            }
        }
        dropped + 1
    } else {
        assert(text.skip(0) =~= text);
        0
    }
}

/// What is left of a search pattern: slashes for backslashes, behind a drive and slashes
/// at the front. A pattern that climbs out of a directory is not searched for.
pub proof fn law_search_patterns_are_relative(pattern: Seq<char>)
    ensures
        exists|after: Seq<char>, drive: int, dropped: int|
            {
                let drive_letter = after[0];
                &&& #[trigger] with_slashes(pattern, after)
                &&& 0 <= drive <= dropped <= after.len()
                &&& drive == 0 || drive == 2
                &&& drive == 2 <==> after.len() >= 2 && after[1] == ':' && ('A' <= drive_letter
                    <= 'Z' || 'a' <= drive_letter <= 'z')
                &&& forall|i: int| drive <= i < dropped ==> #[trigger] after[i] == '/'
                &&& dropped < after.len() ==> after[dropped] != '/'
                &&& climbs(#[trigger] after.skip(dropped)) ==> normalized_pattern(pattern) is None
                &&& !climbs(after.skip(dropped)) ==> normalized_pattern(pattern) == Some(
                    after.skip(dropped),
                )
                &&& #[trigger] after.skip(drive).len() == after.len() - drive
            },
{
    let after = slashed(pattern);
    let rest = without_drive(after);
    let drive = if rest == after {
        0int
    } else {
        2int
    };
    assert(rest =~= after.skip(drive));
    let more = lemma_leading_slashes(rest);
    let dropped = drive + more;
    assert(rest.skip(more) =~= after.skip(dropped));
    assert(with_slashes(pattern, after));
    assert forall|i: int| drive <= i < dropped implies #[trigger] after[i] == '/' by {
        assert(rest[i - drive] == '/');
    }
    if dropped < after.len() {
        assert(rest[more] == after[dropped]);
    }
    lemma_climbs(after.skip(dropped));
    assert(after.skip(drive).len() == after.len() - drive);
}

proof fn lemma_last_slash(path: Seq<char>)
    ensures
        match last_slash(path) {
            Some(slash) => {
                &&& 0 <= slash < path.len()
                &&& path[slash] == '/'
                &&& forall|i: int| slash < i < path.len() ==> #[trigger] path[i] != '/'
            },
            None => forall|i: int| 0 <= i < path.len() ==> #[trigger] path[i] != '/',
        },
    decreases path.len(),
{
    if path.len() > 0 && path.last() != '/' {
        lemma_last_slash(path.drop_last());
        assert forall|i: int| 0 <= i < path.len() - 1 implies path[i] == path.drop_last()[i] by {}
    }
}

/// A search pattern is the directory, a slash and the pattern of the names in it, which
/// has no slash. Without a name every name is meant.
pub proof fn law_search_patterns_are_split(normalized: Seq<char>)
    ensures
        ({
            let directory = search_directory(normalized);
            let name = search_file_pattern(normalized);
            &&& name.len() > 0
            &&& forall|i: int| 0 <= i < name.len() ==> #[trigger] name[i] != '/'
            &&& if normalized.contains('/') {
                ||| normalized == directory + seq!['/'] + name
                ||| normalized == directory + seq!['/'] && name == seq!['*']
            } else {
                &&& directory.len() == 0
                &&& normalized == name || normalized.len() == 0 && name == seq!['*']
            }
        }),
{
    lemma_last_slash(normalized);
    let directory = search_directory(normalized);
    let name = search_file_pattern(normalized);
    match last_slash(normalized) {
        Some(slash) => {
            assert(normalized.contains(normalized[slash]));
            if slash + 1 < normalized.len() {
                assert(normalized =~= directory + seq!['/'] + name);
            } else {
                assert(normalized =~= directory + seq!['/']);
            }
        },
        None => {
            if normalized.contains('/') {
                let i = choose|i: int| 0 <= i < normalized.len() && normalized[i] == '/';
                assert(normalized[i] != '/');
            }
        },
    }
}

/// A guest file lies where its name says where that begins with a slash, and else in the
/// directory of the application.
pub proof fn law_files_lie_beside_the_application(app_path: Seq<char>, name: Seq<char>)
    ensures
        exists|path: Seq<char>, app: Seq<char>, slash: int|
            {
                let place = host_file_path(app_path, name);
                &&& #[trigger] with_slashes(name, path)
                &&& #[trigger] with_slashes(app_path, app)
                &&& -1 <= slash < app.len()
                &&& slash >= 0 ==> app[slash] == '/'
                &&& forall|i: int| slash < i < app.len() ==> #[trigger] app[i] != '/'
                &&& path.len() > 0 && path[0] == '/' ==> place == path
                &&& !(path.len() > 0 && path[0] == '/') && slash <= 0 ==> place == path
                &&& !(path.len() > 0 && path[0] == '/') && slash > 0 && app[slash - 1] != '/'
                    ==> place == app.take(slash + 1) + path
                &&& !(path.len() > 0 && path[0] == '/') && slash > 0 && app[slash - 1] == '/'
                    ==> place == #[trigger] app.take(slash) + path
            },
{
    let path = slashed(name);
    let app = slashed(app_path);
    lemma_last_slash(app);
    let slash = match last_slash(app) {
        Some(slash) => slash,
        None => -1,
    };
    assert(with_slashes(name, path));
    assert(with_slashes(app_path, app));
    if slash > 0 {
        assert(app.take(slash).last() == app[slash - 1]);
        assert(app.take(slash).push('/') =~= app.take(slash + 1));
    }
    let part = app.take(slash);
    if slash <= 0 {
        assert(part.len() == 0 || slash < 0);
    }
}

/// A path below a directory is both of them with a slash between them.
pub proof fn law_paths_are_joined(directory: Seq<char>, path: Seq<char>)
    requires
        directory.len() > 0,
    ensures
        directory.last() != '/' ==> joined(directory, path) == directory + seq!['/'] + path,
        directory.last() == '/' ==> joined(directory, path) == directory + path,
{
    assert(directory.push('/') =~= directory + seq!['/']);
}

/// Whether a part of a path can be kept as it is: it names something, it is neither the
/// directory itself nor the one above it, and it has none of the characters that a name
/// cannot have.
pub open spec fn is_plain(part: Seq<char>) -> bool {
    &&& part.len() > 0
    &&& !(part.len() == 1 && part[0] == '.')
    &&& !(part.len() == 2 && part[0] == '.' && part[1] == '.')
    &&& forall|i: int|
        0 <= i < part.len() ==> #[trigger] part[i] != ':' && part[i] != '\0' && part[i] != '/'
            && part[i] != '\\'
}

/// Texts one behind the other, with a slash between them.
pub open spec fn with_slashes_between(parts: Seq<Seq<char>>) -> Seq<char>
    decreases parts.len(),
{
    if parts.len() == 0 {
        Seq::empty()
    } else if parts.len() == 1 {
        parts[0]
    } else {
        with_slashes_between(parts.drop_last()) + seq!['/'] + parts.last()
    }
}

proof fn lemma_plain_use(part: Seq<char>, index: int)
    requires
        is_plain(part),
    ensures
        component_use(part, index) == crate::paths::ComponentUse::Keep(part),
{
    if part == seq!['.'] {
        assert(part[0] == '.');
    }
    if part == seq!['.', '.'] {
        assert(part[0] == '.' && part[1] == '.');
    }
    assert(!has_char(part, ':'));
    assert(!has_char(part, '\0'));
}

proof fn lemma_components_end(path: Seq<char>, start: int, at: int, end: int)
    requires
        0 <= start <= at <= end <= path.len(),
        forall|i: int| at <= i < end ==> #[trigger] path[i] != '/',
        end == path.len() || path[end] == '/',
    ensures
        components_from(path, start, at) == if end == path.len() {
            seq![path.subrange(start, end)]
        } else {
            seq![path.subrange(start, end)] + components_from(path, end + 1, end + 1)
        },
    decreases end - at,
{
    if at < end {
        lemma_components_end(path, start, at + 1, end);
    }
}

/// A text behind another one, with a slash between them where that is not empty.
pub open spec fn below(front: Seq<char>, rest: Seq<char>) -> Seq<char> {
    if front.len() == 0 {
        rest
    } else {
        front + seq!['/'] + rest
    }
}

proof fn lemma_plain_parts(
    path: Seq<char>,
    left: Seq<Seq<char>>,
    start: int,
    number: int,
    earlier: Seq<char>,
    all: Seq<Seq<char>>,
)
    requires
        left.len() > 0,
        0 <= start <= path.len(),
        forall|i: int| 0 <= i < left.len() ==> is_plain(#[trigger] left[i]),
        path.skip(start) == with_slashes_between(left),
        0 <= number <= all.len(),
        all.skip(number) == components_from(path, start, start),
    ensures
        save_path_from(all, number, earlier) == Some(below(earlier, with_slashes_between(left))),
    decreases left.len(),
{
    let part = left[0];
    assert(is_plain(left[0]));
    lemma_next_part(path, left, start);
    lemma_first_part(left);
    let end = start + part.len();
    assert(all.skip(number).len() > 0);
    assert(all.skip(number)[0] == all[number]);
    lemma_plain_use(part, number);
    let after = with_component(earlier, part);
    assert(after =~= below(earlier, part));
    if left.len() > 1 {
        let next = components_from(path, end + 1, end + 1);
        let rest = left.skip(1);
        assert(all.skip(number + 1) =~= all.skip(number).skip(1));
        assert((seq![part] + next).skip(1) =~= next);
        assert forall|i: int| 0 <= i < rest.len() implies is_plain(#[trigger] rest[i]) by {
            assert(is_plain(left[i + 1]));
        }
        lemma_plain_parts(path, rest, end + 1, number + 1, after, all);
        assert(below(after, with_slashes_between(rest)) =~= below(
            earlier,
            with_slashes_between(left),
        ));
    } else {
        assert(all.len() == number + 1);
        assert(save_path_from(all, number + 1, after) == Some(after));
    }
}

proof fn lemma_next_part(path: Seq<char>, left: Seq<Seq<char>>, start: int)
    requires
        left.len() > 0,
        0 <= start <= path.len(),
        is_plain(left[0]),
        path.skip(start) == with_slashes_between(left),
    ensures
        ({
            let end = start + left[0].len();
            if left.len() == 1 {
                components_from(path, start, start) == seq![left[0]]
            } else {
                &&& end + 1 <= path.len()
                &&& path.skip(end + 1) == with_slashes_between(left.skip(1))
                &&& components_from(path, start, start) == seq![left[0]] + components_from(
                    path,
                    end + 1,
                    end + 1,
                )
            }
        }),
{
    let part = left[0];
    let rest = path.skip(start);
    lemma_first_part(left);
    let end = start + part.len();
    assert(rest.len() == path.len() - start);
    assert(rest.len() >= part.len());
    assert(forall|i: int| 0 <= i < part.len() ==> rest[i] == part[i]);
    assert forall|i: int| start <= i < end implies #[trigger] path[i] != '/' by {
        assert(path[i] == rest[i - start]);
        assert(rest[i - start] == part[i - start]);
    }
    assert(path.subrange(start, end) =~= part) by {
        assert forall|i: int| 0 <= i < part.len() implies path.subrange(start, end)[i]
            == part[i] by {
            assert(path[start + i] == rest[i]);
        }
    }
    if left.len() > 1 {
        assert(path[end] == rest[part.len() as int]);
        let later = with_slashes_between(left.skip(1));
        assert(rest == part + seq!['/'] + later);
        assert(path.skip(end + 1) =~= later) by {
            assert forall|i: int| 0 <= i < later.len() implies path.skip(end + 1)[i] == later[i] by {
                assert(path[end + 1 + i] == rest[1 + part.len() + i]);
            }
        }
    } else {
        assert(end == path.len());
    }
    lemma_components_end(path, start, start, end);
}

proof fn lemma_first_part(parts: Seq<Seq<char>>)
    requires
        parts.len() > 0,
    ensures
        parts.len() == 1 ==> with_slashes_between(parts) == parts[0],
        parts.len() > 1 ==> with_slashes_between(parts) == parts[0] + seq!['/']
            + with_slashes_between(parts.skip(1)),
    decreases parts.len(),
{
    if parts.len() == 2 {
        assert(parts.drop_last() =~= seq![parts[0]]);
        assert(parts.skip(1) =~= seq![parts[1]]);
        assert(with_slashes_between(parts.drop_last()) == parts[0]);
        assert(with_slashes_between(parts.skip(1)) == parts[1]);
    } else if parts.len() > 2 {
        lemma_first_part(parts.drop_last());
        assert(parts.drop_last().skip(1) =~= parts.skip(1).drop_last());
        assert(parts.skip(1).last() == parts.last());
        assert(with_slashes_between(parts) =~= parts[0] + seq!['/'] + with_slashes_between(
            parts.skip(1),
        ));
    }
}

/// The name of a saved file that is made of plain parts is its path below the save
/// directory.
pub proof fn law_plain_names_are_kept(parts: Seq<Seq<char>>)
    requires
        parts.len() > 0,
        forall|i: int| 0 <= i < parts.len() ==> is_plain(#[trigger] parts[i]),
    ensures
        save_path(with_slashes_between(parts)) == Some(with_slashes_between(parts)),
{
    let path = with_slashes_between(parts);
    lemma_no_backslash(parts);
    assert(slashed(path) =~= path);
    let all = components(path);
    assert(all.skip(0) =~= all);
    assert(path.skip(0) =~= path);
    lemma_plain_parts(path, parts, 0, 0, Seq::empty(), all);
}

/// A drive at the front of a name becomes a directory with its letter.
pub proof fn law_drives_become_directories(letter: char, parts: Seq<Seq<char>>)
    requires
        'A' <= letter <= 'Z' || 'a' <= letter <= 'z',
        parts.len() > 0,
        forall|i: int| 0 <= i < parts.len() ==> is_plain(#[trigger] parts[i]),
    ensures
        save_path(seq![letter, ':', '/'] + with_slashes_between(parts)) == Some(
            seq![letter, '/'] + with_slashes_between(parts),
        ),
        save_path(seq![letter, ':', '\\'] + with_slashes_between(parts)) == Some(
            seq![letter, '/'] + with_slashes_between(parts),
        ),
{
    let text = with_slashes_between(parts);
    let path = seq![letter, ':', '/'] + text;
    lemma_no_backslash(parts);
    assert(slashed(path) =~= path);
    assert(slashed(seq![letter, ':', '\\'] + text) =~= path);
    let all = components(path);
    lemma_components_end(path, 0, 0, 2);
    let drive = path.subrange(0, 2);
    assert(drive.len() == 2 && drive[0] == letter && drive[1] == ':');
    assert(path.skip(3) =~= text);
    let rest = components_from(path, 3, 3);
    assert(all.skip(1) =~= rest);
    let kept = drive.take(1);
    assert(kept =~= seq![letter]);
    assert(!has_char(drive, '\0'));
    assert(!has_char(kept, ':'));
    assert(drive != seq!['.', '.']) by {
        if drive == seq!['.', '.'] {
            assert(drive[1] == '.');
        }
    }
    assert(drive != seq!['.']) by {
        if drive == seq!['.'] {
            assert(drive.len() == 1);
        }
    }
    assert(component_use(all[0], 0) == crate::paths::ComponentUse::Keep(kept));
    lemma_plain_parts(path, parts, 3, 1, kept, all);
    assert(with_component(Seq::empty(), kept) == kept);
    assert(below(kept, text) =~= seq![letter, '/'] + text);
}

proof fn lemma_no_backslash(parts: Seq<Seq<char>>)
    requires
        forall|i: int| 0 <= i < parts.len() ==> is_plain(#[trigger] parts[i]),
    ensures
        forall|i: int|
            0 <= i < with_slashes_between(parts).len() ==> #[trigger] with_slashes_between(parts)[i]
                != '\\',
    decreases parts.len(),
{
    if parts.len() == 1 {
        assert(is_plain(parts[0]));
    } else if parts.len() > 1 {
        let earlier = parts.drop_last();
        assert forall|i: int| 0 <= i < earlier.len() implies is_plain(#[trigger] earlier[i]) by {
            assert(is_plain(parts[i]));
        }
        lemma_no_backslash(earlier);
        assert(is_plain(parts[parts.len() - 1]));
        let text = with_slashes_between(parts);
        let front = with_slashes_between(earlier);
        assert forall|i: int| 0 <= i < text.len() implies #[trigger] text[i] != '\\' by {
            if i < front.len() {
                assert(text[i] == front[i]);
            } else if i > front.len() {
                assert(text[i] == parts.last()[i - front.len() - 1]);
            }
        }
    }
}

proof fn lemma_refused(all: Seq<Seq<char>>, index: int, path: Seq<char>, bad: int)
    requires
        0 <= index <= bad < all.len(),
        component_use(all[bad], bad) is Reject,
    ensures
        save_path_from(all, index, path) is None,
    decreases bad - index,
{
    if index < bad {
        match component_use(all[index], index) {
            crate::paths::ComponentUse::Skip => lemma_refused(all, index + 1, path, bad),
            crate::paths::ComponentUse::Reject => {},
            crate::paths::ComponentUse::Keep(part) => lemma_refused(
                all,
                index + 1,
                with_component(path, part),
                bad,
            ),
        }
    }
}

proof fn lemma_component_at(path: Seq<char>, start: int, at: int, first: int, end: int) -> (number:
    int)
    requires
        0 <= start <= at <= first <= end <= path.len(),
        start == first || at <= first - 1 && path[first - 1] == '/',
        forall|i: int| first <= i < end ==> #[trigger] path[i] != '/',
        end == path.len() || path[end] == '/',
    ensures
        0 <= number < components_from(path, start, at).len(),
        components_from(path, start, at)[number] == path.subrange(first, end),
        first > start ==> number > 0,
    decreases path.len() - at,
{
    if start == first {
        lemma_components_end(path, start, at, end);
        0
    } else if path[at] == '/' {
        let rest = components_from(path, at + 1, at + 1);
        let number = lemma_component_at(path, at + 1, at + 1, first, end);
        assert((seq![path.subrange(start, at)] + rest)[number + 1] == rest[number]);
        number + 1
    } else {
        lemma_component_at(path, start, at + 1, first, end)
    }
}

/// A name that climbs out of the save directory, or has a zero in it, is refused, and so
/// is one with a colon that does not stand behind a single letter at the front.
pub proof fn law_other_names_are_refused(name: Seq<char>, path: Seq<char>, first: int, end: int)
    requires
        with_slashes(name, path),
        0 <= first <= end <= path.len(),
        first == 0 || path[first - 1] == '/',
        end == path.len() || path[end] == '/',
        forall|i: int| first <= i < end ==> #[trigger] path[i] != '/',
        ({
            let part = path.subrange(first, end);
            ||| part == seq!['.', '.']
            ||| part.contains('\0')
            ||| part.contains(':') && (first > 0 || part.len() != 2)
        }),
    ensures
        save_path(name) is None,
{
    assert(path =~= slashed(name));
    let part = path.subrange(first, end);
    let number = lemma_component_at(path, 0, 0, first, end);
    let all = components(path);
    if part == seq!['.', '.'] {
        assert(part.len() == 2 && part[0] == '.' && part[1] == '.');
    } else if part.contains('\0') {
        let i = choose|i: int| 0 <= i < part.len() && part[i] == '\0';
        assert(has_char(part, '\0'));
        if part == seq!['.'] {
            assert(part[0] == '.');
        }
    } else {
        let i = choose|i: int| 0 <= i < part.len() && part[i] == ':';
        assert(has_char(part, ':'));
        if part == seq!['.'] {
            assert(part[0] == '.');
        }
    }
    assert(component_use(all[number], number) is Reject);
    lemma_refused(all, 0, Seq::empty(), number);
}

/// One text comes before another one in the dictionary where it is its beginning, or has
/// the smaller byte at the first place where they differ.
pub open spec fn in_dictionary_order(left: Seq<u8>, right: Seq<u8>) -> bool {
    exists|same: int|
        {
            &&& 0 <= same <= left.len()
            &&& same <= right.len()
            &&& #[trigger] left.take(same) == right.take(same)
            &&& same == left.len() || same < right.len() && left[same] < right[same]
        }
}

/// Names come in the order of a dictionary.
pub proof fn law_dictionary_order(left: Seq<u8>, right: Seq<u8>)
    ensures
        dictionary_le(left, right) <==> in_dictionary_order(left, right),
    decreases left.len(),
{
    if left.len() == 0 {
        assert(left.take(0) =~= right.take(0));
    } else if right.len() > 0 {
        if left[0] == right[0] {
            let rest = left.skip(1);
            let others = right.skip(1);
            law_dictionary_order(rest, others);
            if in_dictionary_order(rest, others) {
                let same = choose|same: int|
                    {
                        &&& 0 <= same <= rest.len()
                        &&& same <= others.len()
                        &&& #[trigger] rest.take(same) == others.take(same)
                        &&& same == rest.len() || same < others.len() && rest[same] < others[same]
                    };
                assert(left.take(same + 1) =~= seq![left[0]] + rest.take(same));
                assert(right.take(same + 1) =~= seq![left[0]] + others.take(same));
                assert(in_dictionary_order(left, right));
            }
            if in_dictionary_order(left, right) {
                let same = choose|same: int|
                    {
                        &&& 0 <= same <= left.len()
                        &&& same <= right.len()
                        &&& #[trigger] left.take(same) == right.take(same)
                        &&& same == left.len() || same < right.len() && left[same] < right[same]
                    };
                assert(same > 0);
                assert(rest.take(same - 1) =~= left.take(same).skip(1));
                assert(others.take(same - 1) =~= right.take(same).skip(1));
                assert(in_dictionary_order(rest, others));
            }
        } else {
            if left[0] < right[0] {
                assert(left.take(0) =~= right.take(0));
            }
            if in_dictionary_order(left, right) {
                let same = choose|same: int|
                    {
                        &&& 0 <= same <= left.len()
                        &&& same <= right.len()
                        &&& #[trigger] left.take(same) == right.take(same)
                        &&& same == left.len() || same < right.len() && left[same] < right[same]
                    };
                if same > 0 {
                    assert(left.take(same)[0] == right.take(same)[0]);
                }
            }
        }
    } else if in_dictionary_order(left, right) {
        let same = choose|same: int|
            {
                &&& 0 <= same <= left.len()
                &&& same <= right.len()
                &&& #[trigger] left.take(same) == right.take(same)
                &&& same == left.len() || same < right.len() && left[same] < right[same]
            };
        assert(same == 0);
    }
}

/// Names are ordered without regard to case first, and by case where they are the same
/// without it.
pub proof fn law_order_of_names(left: Seq<u8>, right: Seq<u8>)
    ensures
        name_le(left, right) <==> if lowered(left) == lowered(right) {
            in_dictionary_order(left, right)
        } else {
            in_dictionary_order(lowered(left), lowered(right))
        },
{
    law_dictionary_order(left, right);
    law_dictionary_order(lowered(left), lowered(right));
}

proof fn lemma_directory_bit(attributes: u32)
    by (bit_vector)
    ensures
        attributes & 0x10 != 0 <==> attributes / 16 % 2 == 1,
{
}

/// A search reports files, or directories where the fifth bit of its attributes asks for
/// them, whose names fit its pattern, each as often as the host lists it and no others.
pub proof fn law_entries_that_are_reported(
    entries: Seq<HostEntry>,
    file_pattern: Seq<u8>,
    attributes: u32,
)
    ensures
        selected(entries, file_pattern, attributes) == entries.filter(
            |entry: HostEntry|
                (if attributes / 16 % 2 == 1 {
                    entry.is_directory
                } else {
                    entry.is_file
                }) && search_matches(file_pattern, name_bytes(entry.name)),
        ).map_values(|entry: HostEntry| entry.name),
    decreases entries.len(),
{
    reveal(Seq::filter);
    lemma_directory_bit(attributes);
    let test = |entry: HostEntry|
        (if attributes / 16 % 2 == 1 {
            entry.is_directory
        } else {
            entry.is_file
        }) && search_matches(file_pattern, name_bytes(entry.name));
    let name_of = |entry: HostEntry| entry.name;
    if entries.len() > 0 {
        law_entries_that_are_reported(entries.drop_last(), file_pattern, attributes);
        let earlier = entries.drop_last().filter(test);
        assert(earlier.push(entries.last()).map_values(name_of) =~= earlier.map_values(
            name_of,
        ).push(entries.last().name));
    }
    assert(selected(entries, file_pattern, attributes) =~= entries.filter(test).map_values(
        name_of,
    ));
}

/// The name of a found file is written whole where it is shorter than 256 bytes, else its
/// first 255, with a zero behind it.
pub proof fn law_names_that_are_written(name: Seq<char>)
    ensures
        ({
            let bytes = vstd::utf8::encode_utf8(name);
            let field = name_field(name);
            let length = field.len() - 1;
            &&& 0 <= length <= 255
            &&& length == bytes.len() || length == 255 && bytes.len() > 255
            &&& field[length] == 0
            &&& forall|i: int| 0 <= i < length ==> #[trigger] field[i] == bytes[i]
        }),
{
}

/// A search that is begun forgets the one before it and writes the first name, eighteen
/// bytes behind its data; where there is none the guest is told so.
pub proof fn law_searches_begin_with_the_first_name(
    before: SearchTable,
    after: SearchTable,
    memory: Memory,
    memory_after: Memory,
    data_ptr: u32,
    entries: Option<Seq<String>>,
    result: Result<u32, SimulatorError>,
)
    requires
        search_begun(before, after, memory, memory_after, data_ptr, entries, result),
        memory@.sized(),
        data_ptr != 0,
        data_ptr + 18 <= u32::MAX,
        together(data_ptr + 18, 256),
    ensures
        ({
            let names = match entries {
                Some(names) => names,
                None => Seq::empty(),
            };
            &&& forall|other: u32|
                #![trigger after.searches@.contains_key(other)]
                other != data_ptr ==> (after.searches@.contains_key(other)
                    <==> before.searches@.contains_key(other)) && after.searches@[other]
                    == before.searches@[other]
            &&& names.len() == 0 ==> {
                &&& result == Ok::<u32, SimulatorError>(0xffff_ffff)
                &&& !after.searches@.contains_key(data_ptr)
                &&& memory_after@ == memory@
            }
            &&& names.len() > 0 ==> {
                let field = name_field(names[0]@);
                &&& result == Ok::<u32, SimulatorError>(0)
                &&& after.searches@.contains_key(data_ptr)
                &&& after.searches@[data_ptr].entries@ == names
                &&& after.searches@[data_ptr].next_index == 1
                &&& lies_at(memory_after@, spot(data_ptr + 18)->0, field)
                &&& same_besides(memory@, memory_after@, spot(data_ptr + 18)->0, field.len() as int)
            }
        }),
{
    if entries is Some && entries->0.len() > 0 {
        let field = name_field(entries->0[0]@);
        law_names_that_are_written(entries->0[0]@);
        let address = (data_ptr + 18) as u32;
        assert(together(address as int, field.len() as int));
        lemma_run(address, field.len() as int);
        assert(field.take(field.len() as int) =~= field);
        law_blocks_are_written(memory@, address, field);
    }
}

/// A search that goes on writes the next name, and the one behind it the next time, until
/// no name is left.
pub proof fn law_searches_go_on_with_the_next_name(
    before: SearchTable,
    after: SearchTable,
    memory: Memory,
    memory_after: Memory,
    data_ptr: u32,
    result: Result<u32, SimulatorError>,
)
    requires
        search_continued(before, after, memory, memory_after, data_ptr, result),
        memory@.sized(),
        data_ptr + 18 <= u32::MAX,
        together(data_ptr + 18, 256),
    ensures
        ({
            let search = before.searches@[data_ptr];
            let left = before.searches@.contains_key(data_ptr) && search.next_index
                < search.entries@.len();
            &&& !left ==> {
                &&& result == Ok::<u32, SimulatorError>(0xffff_ffff)
                &&& after.searches@ == before.searches@
                &&& memory_after@ == memory@
            }
            &&& left ==> {
                let field = name_field(search.entries@[search.next_index as int]@);
                &&& result == Ok::<u32, SimulatorError>(0)
                &&& after.searches@[data_ptr].entries@ == search.entries@
                &&& after.searches@[data_ptr].next_index == search.next_index + 1
                &&& lies_at(memory_after@, spot(data_ptr + 18)->0, field)
                &&& same_besides(memory@, memory_after@, spot(data_ptr + 18)->0, field.len() as int)
            }
        }),
{
    let search = before.searches@[data_ptr];
    if before.searches@.contains_key(data_ptr) && search.next_index < search.entries@.len() {
        let name = search.entries@[search.next_index as int]@;
        let field = name_field(name);
        law_names_that_are_written(name);
        let address = (data_ptr + 18) as u32;
        assert(together(address as int, field.len() as int));
        lemma_run(address, field.len() as int);
        assert(field.take(field.len() as int) =~= field);
        law_blocks_are_written(memory@, address, field);
        assert(search.entries@.len() == search.entries.len());
    }
}

} // verus!
