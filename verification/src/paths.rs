//! Names of guest files: wildcards, searches, and where saved files go.
//!
//! Paths are texts with `/` between their components, and an absolute one begins with
//! it. A host on which other paths are absolute too, by a drive letter, tells those
//! apart itself.

use crate::text::{lower, to_lower};
use vstd::prelude::*;
use vstd::string::*;

verus! {

// Wildcards.

/// Whether a pattern byte that is no star stands for a name byte.
pub open spec fn matches_one(pattern: u8, name: u8) -> bool {
    pattern == 0x3f || lower(pattern) == lower(name)
}

/// Whether a name fits a pattern, in which `*` stands for any bytes and `?` for one.
pub open spec fn glob(pattern: Seq<u8>, name: Seq<u8>) -> bool
    decreases pattern.len() + name.len(),
{
    if pattern.len() == 0 {
        name.len() == 0
    } else if pattern[0] == 0x2a {
        glob(pattern.skip(1), name) || name.len() > 0 && glob(pattern, name.skip(1))
    } else {
        name.len() > 0 && matches_one(pattern[0], name[0]) && glob(pattern.skip(1), name.skip(1))
    }
}

/// The pattern that is matched: `*.*` stands for every name.
pub open spec fn effective_pattern(pattern: Seq<u8>) -> Seq<u8> {
    if pattern == seq![0x2au8, 0x2e, 0x2a] {
        seq![0x2au8]
    } else {
        pattern
    }
}

/// Whether only stars are left of a pattern.
pub open spec fn only_stars(pattern: Seq<u8>, at: int) -> bool {
    forall|i: int| at <= i < pattern.len() ==> #[trigger] pattern[i] == 0x2a
}

/// The search for a match from one position of pattern and name, with the last
/// star that was met and the name position it was last tried at. A name byte
/// `*` is taken for itself before it is taken for a wildcard.
pub open spec fn scan(
    pattern: Seq<u8>,
    name: Seq<u8>,
    at: int,
    from: int,
    star: Option<int>,
    retry: int,
) -> bool
    decreases
            name.len() - retry,
            pattern.len() - (match star {
                Some(star) => star,
                None => -1,
            }),
            name.len() - from,
{
    if !(0 <= retry <= from <= name.len() && 0 <= at <= pattern.len() && (match star {
        Some(star) => 0 <= star < at,
        None => true,
    })) {
        false
    } else if from == name.len() {
        only_stars(pattern, at)
    } else if at < pattern.len() && matches_one(pattern[at], name[from]) {
        scan(pattern, name, at + 1, from + 1, star, retry)
    } else if at < pattern.len() && pattern[at] == 0x2a {
        scan(pattern, name, at + 1, from, Some(at), from)
    } else {
        match star {
            Some(star) => scan(pattern, name, star + 1, retry + 1, Some(star), retry + 1),
            None => false,
        }
    }
}

/// Whether a file search for a pattern reports a name.
pub open spec fn search_matches(pattern: Seq<u8>, name: Seq<u8>) -> bool {
    scan(effective_pattern(pattern), name, 0, 0, None, 0)
}

/// A star fits any part of the name.
pub proof fn lemma_glob_star(pattern: Seq<u8>, name: Seq<u8>, from: int)
    requires
        pattern.len() > 0,
        pattern[0] == 0x2a,
        0 <= from <= name.len(),
    ensures
        glob(pattern, name.skip(from)) <==> exists|k: int|
            from <= k <= name.len() && #[trigger] glob(pattern.skip(1), name.skip(k)),
    decreases name.len() - from,
{
    let rest = name.skip(from);
    if from < name.len() {
        lemma_glob_star(pattern, name, from + 1);
        assert(rest.skip(1) =~= name.skip(from + 1));
        if glob(pattern.skip(1), rest) {
            assert(glob(pattern.skip(1), name.skip(from)));
        }
        if glob(pattern, name.skip(from)) && !glob(pattern.skip(1), rest) {
            let k = choose|k: int|
                from + 1 <= k <= name.len() && #[trigger] glob(pattern.skip(1), name.skip(k));
            assert(from <= k <= name.len() && glob(pattern.skip(1), name.skip(k)));
        }
        if exists|k: int| from <= k <= name.len() && #[trigger] glob(pattern.skip(1), name.skip(k)) {
            let k = choose|k: int|
                from <= k <= name.len() && #[trigger] glob(pattern.skip(1), name.skip(k));
            if k > from {
                assert(from + 1 <= k <= name.len() && glob(pattern.skip(1), name.skip(k)));
            }
        }
    } else {
        assert(rest.len() == 0);
        if glob(pattern.skip(1), rest) {
            assert(from <= from <= name.len() && glob(pattern.skip(1), name.skip(from)));
        }
    }
}

/// The empty name fits a pattern of stars only.
proof fn lemma_glob_empty(pattern: Seq<u8>, at: int)
    requires
        0 <= at <= pattern.len(),
    ensures
        glob(pattern.skip(at), Seq::<u8>::empty()) <==> only_stars(pattern, at),
    decreases pattern.len() - at,
{
    let rest = pattern.skip(at);
    if at < pattern.len() {
        assert(rest.skip(1) =~= pattern.skip(at + 1));
        lemma_glob_empty(pattern, at + 1);
        if pattern[at] == 0x2a && only_stars(pattern, at + 1) {
            assert forall|i: int| at <= i < pattern.len() implies #[trigger] pattern[i] == 0x2a by {
                if i > at {
                }
            }
        }
    }
}

/// Whether some later name position fits the pattern behind a star.
pub open spec fn later_match(
    pattern: Seq<u8>,
    name: Seq<u8>,
    star: Option<int>,
    retry: int,
) -> bool {
    match star {
        Some(star) => exists|k: int|
            retry < k <= name.len() && #[trigger] glob(pattern.skip(star + 1), name.skip(k)),
        None => false,
    }
}

/// A pattern without stars up to a star fits only where the bytes in front of
/// that star are matched one by one.
proof fn lemma_later_star(pattern: Seq<u8>, name: Seq<u8>, from: int, at: int, k: int)
    requires
        0 <= from <= at < pattern.len(),
        0 <= k <= name.len(),
        pattern[at] == 0x2a,
        forall|i: int| from <= i < at ==> #[trigger] pattern[i] != 0x2a,
        glob(pattern.skip(from), name.skip(k)),
    ensures
        k + (at - from) <= name.len(),
        glob(pattern.skip(at), name.skip(k + (at - from))),
    decreases at - from,
{
    if from < at {
        assert(pattern.skip(from)[0] == pattern[from]);
        assert(pattern.skip(from).skip(1) =~= pattern.skip(from + 1));
        assert(name.skip(k).skip(1) =~= name.skip(k + 1));
        lemma_later_star(pattern, name, from + 1, at, k + 1);
    }
}

/// The search decides whether a name fits, as long as the name has no star.
proof fn lemma_scan(
    pattern: Seq<u8>,
    name: Seq<u8>,
    at: int,
    from: int,
    star: Option<int>,
    retry: int,
)
    requires
        0 <= retry <= from <= name.len(),
        0 <= at <= pattern.len(),
        forall|i: int| 0 <= i < name.len() ==> #[trigger] name[i] != 0x2a,
        match star {
            Some(star) => {
                &&& 0 <= star < at
                &&& from - retry == at - star - 1
                &&& forall|i: int| star < i < at ==> #[trigger] pattern[i] != 0x2a
            },
            None => true,
        },
    ensures
        scan(pattern, name, at, from, star, retry) <==> glob(pattern.skip(at), name.skip(from))
            || later_match(pattern, name, star, retry),
    decreases
            name.len() - retry,
            pattern.len() - (match star {
                Some(star) => star,
                None => -1,
            }),
            name.len() - from,
{
    let rest = pattern.skip(at);
    let left = name.skip(from);
    if from == name.len() {
        assert(left =~= Seq::<u8>::empty());
        lemma_glob_empty(pattern, at);
        if later_match(pattern, name, star, retry) && !only_stars(pattern, at) {
            let s = star->0;
            let k = choose|k: int|
                retry < k <= name.len() && #[trigger] glob(pattern.skip(s + 1), name.skip(k));
            lemma_too_short(pattern, name, s + 1, at, k);
        }
        return ;
    }
    if at < pattern.len() && matches_one(pattern[at], name[from]) {
        lemma_scan(pattern, name, at + 1, from + 1, star, retry);
        assert(rest.skip(1) =~= pattern.skip(at + 1));
        assert(left.skip(1) =~= name.skip(from + 1));
        assert(pattern[at] != 0x2a);
        assert(rest[0] == pattern[at] && left[0] == name[from]);
    } else if at < pattern.len() && pattern[at] == 0x2a {
        lemma_scan(pattern, name, at + 1, from, Some(at), from);
        lemma_glob_star(rest, name, from);
        assert(rest.skip(1) =~= pattern.skip(at + 1));
        let found = exists|k: int|
            from <= k <= name.len() && #[trigger] glob(rest.skip(1), name.skip(k));
        assert(scan(pattern, name, at, from, star, retry) <==> found) by {
            if found {
                let k = choose|k: int|
                    from <= k <= name.len() && #[trigger] glob(rest.skip(1), name.skip(k));
                if k > from {
                    assert(from < k <= name.len() && glob(pattern.skip(at + 1), name.skip(k)));
                }
            }
            if later_match(pattern, name, Some(at), from) {
                let k = choose|k: int|
                    from < k <= name.len() && #[trigger] glob(pattern.skip(at + 1), name.skip(k));
                assert(from <= k <= name.len() && glob(rest.skip(1), name.skip(k)));
            }
            if glob(pattern.skip(at + 1), left) {
                assert(from <= from <= name.len() && glob(rest.skip(1), name.skip(from)));
            }
        }
        if later_match(pattern, name, star, retry) {
            let s = star->0;
            let k = choose|k: int|
                retry < k <= name.len() && #[trigger] glob(pattern.skip(s + 1), name.skip(k));
            lemma_later_star(pattern, name, s + 1, at, k);
            let j = k + (at - (s + 1));
            lemma_glob_star(rest, name, j);
            let m = choose|m: int|
                j <= m <= name.len() && #[trigger] glob(rest.skip(1), name.skip(m));
            assert(from <= m <= name.len() && glob(rest.skip(1), name.skip(m)));
        }
    } else {
        assert(!glob(rest, left)) by {
            if at < pattern.len() {
                assert(rest[0] == pattern[at] && left[0] == name[from]);
            }
        }
        match star {
            Some(s) => {
                lemma_scan(pattern, name, s + 1, retry + 1, Some(s), retry + 1);
                if later_match(pattern, name, star, retry) {
                    let k = choose|k: int|
                        retry < k <= name.len() && #[trigger] glob(
                            pattern.skip(s + 1),
                            name.skip(k),
                        );
                    if k > retry + 1 {
                        assert(retry + 1 < k <= name.len() && glob(
                            pattern.skip(s + 1),
                            name.skip(k),
                        ));
                    }
                }
                if glob(pattern.skip(s + 1), name.skip(retry + 1)) {
                    assert(retry < retry + 1 <= name.len());
                    assert(later_match(pattern, name, star, retry));
                }
                if later_match(pattern, name, star, retry + 1) {
                    let k = choose|k: int|
                        retry + 1 < k <= name.len() && #[trigger] glob(
                            pattern.skip(s + 1),
                            name.skip(k),
                        );
                    assert(retry < k <= name.len() && glob(pattern.skip(s + 1), name.skip(k)));
                }
            },
            None => {},
        }
    }
}

/// A pattern needs at least one name byte for each of its bytes without star.
proof fn lemma_too_short(pattern: Seq<u8>, name: Seq<u8>, from: int, at: int, k: int)
    requires
        0 <= from <= at <= pattern.len(),
        0 <= k <= name.len(),
        forall|i: int| from <= i < at ==> #[trigger] pattern[i] != 0x2a,
        glob(pattern.skip(from), name.skip(k)),
    ensures
        at - from <= name.len() - k,
    decreases at - from,
{
    if from < at {
        assert(pattern.skip(from)[0] == pattern[from]);
        assert(pattern.skip(from).skip(1) =~= pattern.skip(from + 1));
        if k < name.len() {
            assert(name.skip(k).skip(1) =~= name.skip(k + 1));
            lemma_too_short(pattern, name, from + 1, at, k + 1);
        }
    }
}

/// A file search reports exactly the names that fit its pattern, as far as they
/// hold no star.
pub proof fn law_search_finds_matching_names(pattern: Seq<u8>, name: Seq<u8>)
    requires
        forall|i: int| 0 <= i < name.len() ==> #[trigger] name[i] != 0x2a,
    ensures
        search_matches(pattern, name) <==> glob(effective_pattern(pattern), name),
{
    let effective = effective_pattern(pattern);
    lemma_scan(effective, name, 0, 0, None, 0);
    assert(effective.skip(0) =~= effective);
    assert(name.skip(0) =~= name);
}

/// Whether a name fits a file search pattern.
pub fn wildcard_matches(pattern: &str, name: &str) -> (result: bool)
    ensures
        result == search_matches(pattern.spec_bytes(), name.spec_bytes()),
        (forall|i: int|
            0 <= i < name.spec_bytes().len() ==> #[trigger] name.spec_bytes()[i] != 0x2a)
            ==> result == glob(effective_pattern(pattern.spec_bytes()), name.spec_bytes()),
{
    proof {
        if forall|i: int|
            0 <= i < name.spec_bytes().len() ==> #[trigger] name.spec_bytes()[i] != 0x2a {
            law_search_finds_matching_names(pattern.spec_bytes(), name.spec_bytes());
        }
    }
    let bytes = pattern.as_bytes();
    if bytes.len() == 3 && bytes[0] == 0x2a && bytes[1] == 0x2e && bytes[2] == 0x2a {
        assert(bytes@ =~= seq![0x2au8, 0x2e, 0x2a]);
        let every: Vec<u8> = vec![0x2au8];
        assert(every@ =~= seq![0x2au8]);
        scan_name(every.as_slice(), name.as_bytes())
    } else {
        assert(bytes@ != seq![0x2au8, 0x2e, 0x2a]);
        scan_name(bytes, name.as_bytes())
    }
}

fn scan_name(pattern: &[u8], name: &[u8]) -> (result: bool)
    ensures
        result == scan(pattern@, name@, 0, 0, None, 0),
{
    let mut at: usize = 0;
    let mut from: usize = 0;
    let mut star: Option<usize> = None;
    let mut retry: usize = 0;
    while from < name.len()
        invariant
            retry <= from <= name@.len(),
            at <= pattern@.len(),
            star matches Some(star) ==> star < at,
            scan(pattern@, name@, 0, 0, None, 0) == scan(
                pattern@,
                name@,
                at as int,
                from as int,
                match star {
                    Some(star) => Some(star as int),
                    None => None,
                },
                retry as int,
            ),
        decreases
                name@.len() - retry,
                pattern@.len() - (match star {
                    Some(star) => star as int,
                    None => -1,
                }),
                name@.len() - from,
    {
        if at < pattern.len() && (pattern[at] == 0x3f || to_lower(pattern[at]) == to_lower(
            name[from],
        )) {
            at = at + 1;
            from = from + 1;
        } else if at < pattern.len() && pattern[at] == 0x2a {
            star = Some(at);
            at = at + 1;
            retry = from;
        } else if let Some(last) = star {
            retry = retry + 1;
            from = retry;
            at = last + 1;
        } else {
            return false;
        }
    }
    let ghost stop = at as int;
    while at < pattern.len() && pattern[at] == 0x2a
        invariant
            stop <= at <= pattern@.len(),
            only_stars(pattern@, stop) == only_stars(pattern@, at as int),
        decreases pattern@.len() - at,
    {
        assert(only_stars(pattern@, at as int) == only_stars(pattern@, at + 1)) by {
            if only_stars(pattern@, at + 1) {
                assert forall|i: int| at <= i < pattern@.len() implies #[trigger] pattern@[i]
                    == 0x2a by {
                    if i > at {
                    }
                }
            }
        }
        at = at + 1;
    }
    if at < pattern.len() {
        assert(pattern@[at as int] != 0x2a);
    }
    at == pattern.len()
}

// Paths.

/// The characters of a text.
pub fn to_chars(text: &str) -> (chars: Vec<char>)
    ensures
        chars@ == text@,
{
    let mut chars: Vec<char> = Vec::new();
    for character in iter: text.chars()
        invariant
            chars@ == iter.seq().take(iter.index() as int),
            iter.seq() == text@,
    {
        chars.push(character);
        assert(chars@ =~= iter.seq().take(iter.index() + 1));
    }
    assert(chars@ =~= text@);
    chars
}

/// The text of characters.
pub fn from_chars(chars: &[char]) -> (text: String)
    ensures
        text@ == chars@,
{
    let mut text = String::new();
    let mut index: usize = 0;
    while index < chars.len()
        invariant
            index <= chars@.len(),
            text@ == chars@.take(index as int),
        decreases chars@.len() - index,
    {
        text.push(chars[index]);
        index = index + 1;
        assert(text@ =~= chars@.take(index as int));
    }
    assert(text@ =~= chars@);
    text
}

/// Whether one of the components of a path is `..`.
pub open spec fn has_parent(path: Seq<char>) -> bool {
    exists|i: int| #[trigger] parent_at(path, i)
}

/// Whether the component that starts at a position is `..`.
pub open spec fn parent_at(path: Seq<char>, i: int) -> bool {
    &&& 0 <= i
    &&& i + 2 <= path.len()
    &&& path[i] == '.'
    &&& path[i + 1] == '.'
    &&& i == 0 || path[i - 1] == '/'
    &&& i + 2 == path.len() || path[i + 2] == '/'
}

/// Whether a path stays below the directory that it is taken relative to.
pub open spec fn safe_relative(path: Seq<char>) -> bool {
    &&& path.len() > 0
    &&& path[0] != '/'
    &&& !has_parent(path)
}

fn contains_parent(path: &[char]) -> (result: bool)
    ensures
        result == has_parent(path@),
{
    let mut index: usize = 0;
    while index < path.len()
        invariant
            index <= path@.len(),
            forall|i: int| i < index ==> !#[trigger] parent_at(path@, i),
        decreases path@.len() - index,
    {
        if path.len() - index >= 2 && path[index] == '.' && path[index + 1] == '.' && (index == 0
            || path[index - 1] == '/') && (path.len() - index == 2 || path[index + 2] == '/') {
            assert(parent_at(path@, index as int));
            return true;
        }
        index = index + 1;
    }
    false
}

/// Whether a path stays below the directory that it is taken relative to.
pub fn safe_relative_path(path: &str) -> (result: bool)
    ensures
        result == safe_relative(path@),
{
    let chars: Vec<char> = to_chars(path);
    chars.len() > 0 && chars[0] != '/' && !contains_parent(chars.as_slice())
}

/// Whether a character is an ASCII letter.
pub open spec fn is_letter_char(character: char) -> bool {
    'A' <= character <= 'Z' || 'a' <= character <= 'z'
}

/// A text with `/` for every backslash.
pub open spec fn slashed(text: Seq<char>) -> Seq<char> {
    text.map_values(
        |character: char|
            if character == '\\' {
                '/'
            } else {
                character
            },
    )
}

/// A text without its drive letter.
pub open spec fn without_drive(text: Seq<char>) -> Seq<char> {
    if text.len() >= 2 && text[1] == ':' && is_letter_char(text[0]) {
        text.skip(2)
    } else {
        text
    }
}

/// A text without the slashes it starts with.
pub open spec fn without_leading_slashes(text: Seq<char>) -> Seq<char>
    decreases text.len(),
{
    if text.len() > 0 && text[0] == '/' {
        without_leading_slashes(text.skip(1))
    } else {
        text
    }
}

/// A search pattern relative to the application's directory; nothing where it leaves it.
pub open spec fn normalized_pattern(pattern: Seq<char>) -> Option<Seq<char>> {
    let normalized = without_leading_slashes(without_drive(slashed(pattern)));
    if has_parent(normalized) {
        None
    } else {
        Some(normalized)
    }
}

fn to_slashes(text: &str) -> (chars: Vec<char>)
    ensures
        chars@ == slashed(text@),
{
    let source: Vec<char> = to_chars(text);
    let mut chars: Vec<char> = Vec::new();
    let mut index: usize = 0;
    while index < source.len()
        invariant
            index <= source@.len(),
            source@ == text@,
            chars@ == slashed(text@).take(index as int),
        decreases source@.len() - index,
    {
        chars.push(
            if source[index] == '\\' {
                '/'
            } else {
                source[index]
            },
        );
        index = index + 1;
        assert(chars@ =~= slashed(text@).take(index as int));
    }
    assert(chars@ =~= slashed(text@));
    chars
}

/// Makes a guest search pattern relative to the application's directory.
/// Nothing is returned where it leaves that directory.
pub fn normalize_guest_search_pattern(pattern: &str) -> (result: Option<String>)
    ensures
        match normalized_pattern(pattern@) {
            Some(normalized) => result matches Some(text) && text@ == normalized,
            None => result is None,
        },
{
    let chars: Vec<char> = to_slashes(pattern);
    let mut start: usize = 0;
    if chars.len() >= 2 && chars[1] == ':' && (('A' <= chars[0] && chars[0] <= 'Z') || ('a'
        <= chars[0] && chars[0] <= 'z')) {
        start = 2;
    } else {
        assert(chars@.skip(0) =~= chars@);
    }
    let ghost undriven = without_drive(chars@);
    assert(undriven =~= chars@.skip(start as int));
    while start < chars.len() && chars[start] == '/'
        invariant
            start <= chars@.len(),
            without_leading_slashes(undriven) == without_leading_slashes(
                chars@.skip(start as int),
            ),
        decreases chars@.len() - start,
    {
        assert(chars@.skip(start as int).skip(1) =~= chars@.skip(start + 1));
        start = start + 1;
    }
    let rest = vstd::slice::slice_subrange(chars.as_slice(), start, chars.len());
    assert(rest@ =~= chars@.skip(start as int));
    if contains_parent(rest) {
        None
    } else {
        Some(from_chars(rest))
    }
}

/// Position of the last slash.
pub open spec fn last_slash(path: Seq<char>) -> Option<int>
    decreases path.len(),
{
    if path.len() == 0 {
        None
    } else if path.last() == '/' {
        Some(path.len() - 1)
    } else {
        last_slash(path.drop_last())
    }
}

fn find_last_slash(path: &[char]) -> (position: Option<usize>)
    ensures
        match last_slash(path@) {
            Some(expected) => position matches Some(found) && found == expected && found
                < path@.len(),
            None => position is None,
        },
{
    let mut end: usize = path.len();
    assert(path@.take(end as int) =~= path@);
    while end > 0
        invariant
            end <= path@.len(),
            last_slash(path@) == last_slash(path@.take(end as int)),
        decreases end,
    {
        assert(path@.take(end as int).drop_last() =~= path@.take(end - 1));
        if path[end - 1] == '/' {
            return Some(end - 1);
        }
        end = end - 1;
    }
    None
}

/// Where a file search looks, and for which names.
#[derive(Debug)]
pub struct SearchPlan {
    /// Below the application's directory; empty for that directory itself.
    pub directory: String,
    pub file_pattern: String,
}

/// The directory of a file search.
pub open spec fn search_directory(normalized: Seq<char>) -> Seq<char> {
    match last_slash(normalized) {
        Some(slash) => normalized.take(slash),
        None => Seq::empty(),
    }
}

/// The name pattern of a file search.
pub open spec fn search_file_pattern(normalized: Seq<char>) -> Seq<char> {
    let name = match last_slash(normalized) {
        Some(slash) => normalized.skip(slash + 1),
        None => normalized,
    };
    if name.len() == 0 {
        seq!['*']
    } else {
        name
    }
}

/// Splits a guest search pattern into a directory and a name pattern. Nothing
/// is returned where the pattern leaves the application's directory.
pub fn plan_file_search(pattern: &str) -> (result: Option<SearchPlan>)
    ensures
        match normalized_pattern(pattern@) {
            Some(normalized) => result matches Some(plan) && plan.directory@ == search_directory(
                normalized,
            ) && plan.file_pattern@ == search_file_pattern(normalized),
            None => result is None,
        },
{
    let normalized = match normalize_guest_search_pattern(pattern) {
        Some(normalized) => normalized,
        None => {
            return None;
        },
    };
    let chars: Vec<char> = to_chars(normalized.as_str());
    let length: usize = chars.len();
    let all = chars.as_slice();
    let mut directory = String::new();
    let mut name_start: usize = 0;
    assert(directory@ =~= Seq::<char>::empty());
    if let Some(slash) = find_last_slash(all) {
        let part = vstd::slice::slice_subrange(all, 0, slash);
        assert(part@ =~= chars@.take(slash as int));
        directory = from_chars(part);
        name_start = slash + 1;
    }
    let name = vstd::slice::slice_subrange(all, name_start, length);
    assert(name@ =~= chars@.skip(name_start as int));
    assert(chars@.skip(0) =~= chars@);
    let file_pattern = if name.len() == 0 {
        let mut every = String::new();
        every.push('*');
        assert(every@ =~= seq!['*']);
        every
    } else {
        from_chars(name)
    };
    Some(SearchPlan { directory, file_pattern })
}

/// A path below a directory.
pub open spec fn joined(directory: Seq<char>, path: Seq<char>) -> Seq<char> {
    if directory.len() == 0 {
        path
    } else if directory.last() == '/' {
        directory + path
    } else {
        directory.push('/') + path
    }
}

/// Where a guest file lies on the host: at an absolute path as it is, else next
/// to the application.
pub open spec fn host_file_path(app_path: Seq<char>, name: Seq<char>) -> Seq<char> {
    let path = slashed(name);
    let app = slashed(app_path);
    if path.len() > 0 && path[0] == '/' {
        path
    } else {
        match last_slash(app) {
            Some(slash) => joined(app.take(slash), path),
            None => path,
        }
    }
}

/// Joins a path to a directory.
pub fn join_path(directory: &str, path: &str) -> (result: String)
    ensures
        result@ == joined(directory@, path@),
{
    let chars: Vec<char> = to_chars(directory);
    let mut result = from_chars(chars.as_slice());
    if chars.len() > 0 && chars[chars.len() - 1] != '/' {
        result.push('/');
    }
    result.append(path);
    assert(result@ =~= joined(directory@, path@));
    result
}

/// Where a guest file lies on the host.
pub fn resolve_host_file_path(app_path: &str, name: &str) -> (path: String)
    ensures
        path@ == host_file_path(app_path@, name@),
{
    let path: Vec<char> = to_slashes(name);
    if path.len() > 0 && path[0] == '/' {
        return from_chars(path.as_slice());
    }
    let app: Vec<char> = to_slashes(app_path);
    match find_last_slash(app.as_slice()) {
        None => from_chars(path.as_slice()),
        Some(slash) => {
            let directory = vstd::slice::slice_subrange(app.as_slice(), 0, slash);
            assert(directory@ =~= app@.take(slash as int));
            let below = from_chars(directory);
            let rest = from_chars(path.as_slice());
            join_path(below.as_str(), rest.as_str())
        },
    }
}

// Saved files.

/// The components of a path from the one that starts at `start` on, with
/// everything in front of `at` known to hold no slash.
pub open spec fn components_from(path: Seq<char>, start: int, at: int) -> Seq<Seq<char>>
    decreases path.len() - at,
{
    if at < 0 || at >= path.len() {
        seq![path.subrange(start, path.len() as int)]
    } else if path[at] == '/' {
        seq![path.subrange(start, at)] + components_from(path, at + 1, at + 1)
    } else {
        components_from(path, start, at + 1)
    }
}

/// The components of a path.
pub open spec fn components(path: Seq<char>) -> Seq<Seq<char>> {
    components_from(path, 0, 0)
}

/// Whether a character occurs in a text.
pub open spec fn has_char(text: Seq<char>, character: char) -> bool {
    exists|i: int| 0 <= i < text.len() && #[trigger] text[i] == character
}

/// What becomes of one component of the name of a saved file.
pub enum ComponentUse {
    /// It has no effect.
    Skip,
    /// The name is not accepted.
    Reject,
    /// It is a directory or file below the earlier ones.
    Keep(Seq<char>),
}

/// What becomes of component number `index`.
pub open spec fn component_use(component: Seq<char>, index: int) -> ComponentUse {
    let undriven = if index == 0 && component.len() == 2 && is_letter_char(component[0])
        && component[1] == ':' {
        component.take(1)
    } else {
        component
    };
    if component.len() == 0 || component == seq!['.'] {
        ComponentUse::Skip
    } else if component == seq!['.', '.'] || has_char(component, '\0') {
        ComponentUse::Reject
    } else if has_char(undriven, ':') {
        ComponentUse::Reject
    } else {
        ComponentUse::Keep(undriven)
    }
}

/// A path with one more component.
pub open spec fn with_component(path: Seq<char>, component: Seq<char>) -> Seq<char> {
    if path.len() == 0 {
        component
    } else {
        path.push('/') + component
    }
}

/// The path of a saved file, from component number `index` on.
pub open spec fn save_path_from(
    components: Seq<Seq<char>>,
    index: int,
    path: Seq<char>,
) -> Option<Seq<char>>
    decreases components.len() - index,
{
    if index < 0 || index >= components.len() {
        if path.len() == 0 {
            None
        } else {
            Some(path)
        }
    } else {
        match component_use(components[index], index) {
            ComponentUse::Skip => save_path_from(components, index + 1, path),
            ComponentUse::Reject => None,
            ComponentUse::Keep(component) => save_path_from(
                components,
                index + 1,
                with_component(path, component),
            ),
        }
    }
}

/// Path of a saved file below the save directory; nothing where the name is not accepted.
pub open spec fn save_path(name: Seq<char>) -> Option<Seq<char>> {
    save_path_from(components(slashed(name)), 0, Seq::empty())
}

/// Components hold no slash.
pub proof fn lemma_components(path: Seq<char>, start: int, at: int)
    requires
        0 <= start <= at <= path.len(),
        forall|i: int| start <= i < at ==> #[trigger] path[i] != '/',
    ensures
        components_from(path, start, at).len() > 0,
        forall|i: int|
            0 <= i < components_from(path, start, at).len() ==> !has_char(
                #[trigger] components_from(path, start, at)[i],
                '/',
            ),
    decreases path.len() - at,
{
    if at < path.len() {
        if path[at] == '/' {
            lemma_components(path, at + 1, at + 1);
            let rest = components_from(path, at + 1, at + 1);
            let all = components_from(path, start, at);
            assert forall|i: int| 0 <= i < all.len() implies !has_char(#[trigger] all[i], '/') by {
                if i > 0 {
                    assert(all[i] == rest[i - 1]);
                }
            }
        } else {
            lemma_components(path, start, at + 1);
        }
    }
}

/// Adding an ordinary component keeps a path below its directory.
proof fn lemma_with_component(path: Seq<char>, component: Seq<char>)
    requires
        path.len() == 0 || safe_relative(path),
        component.len() > 0,
        !has_char(component, '/'),
        component != seq!['.', '.'],
    ensures
        safe_relative(with_component(path, component)),
{
    let longer = with_component(path, component);
    assert(component[0] != '/');
    if path.len() > 0 {
        assert(longer[0] == path[0]);
    }
    let offset: int = if path.len() == 0 {
        0
    } else {
        path.len() as int + 1
    };
    assert forall|i: int| !#[trigger] parent_at(longer, i) by {
        if parent_at(longer, i) {
            if i + 2 <= path.len() {
                assert(longer[i] == path[i] && longer[i + 1] == path[i + 1]);
                assert(parent_at(path, i));
            } else if i >= offset {
                assert(longer[i] == component[i - offset]);
                assert(longer[i + 1] == component[i + 1 - offset]);
                if i > offset {
                    assert(longer[i - 1] == component[i - 1 - offset]);
                } else if i + 2 < longer.len() {
                    assert(longer[i + 2] == component[i + 2 - offset]);
                } else {
                    assert(component =~= seq!['.', '.']);
                }
            } else {
                assert(longer[path.len() as int] == '/');
            }
        }
    }
}

proof fn lemma_save_path_is_safe(components: Seq<Seq<char>>, index: int, path: Seq<char>)
    requires
        0 <= index <= components.len(),
        path.len() == 0 || safe_relative(path),
        forall|i: int| 0 <= i < components.len() ==> !has_char(#[trigger] components[i], '/'),
    ensures
        save_path_from(components, index, path) matches Some(result) ==> safe_relative(result),
    decreases components.len() - index,
{
    if index < components.len() {
        let component = components[index];
        match component_use(component, index) {
            ComponentUse::Skip => lemma_save_path_is_safe(components, index + 1, path),
            ComponentUse::Reject => {},
            ComponentUse::Keep(kept) => {
                assert(!has_char(kept, '/')) by {
                    if has_char(kept, '/') {
                        let i = choose|i: int| 0 <= i < kept.len() && #[trigger] kept[i] == '/';
                        assert(component[i] == '/');
                    }
                }
                assert(kept != seq!['.', '.']) by {
                    if kept == seq!['.', '.'] {
                        assert(kept.len() == 2);
                    }
                }
                lemma_with_component(path, kept);
                lemma_save_path_is_safe(components, index + 1, with_component(path, kept));
            },
        }
    }
}

/// No guest name leads out of the save directory.
pub proof fn law_saved_files_stay_in_their_directory(name: Seq<char>)
    ensures
        save_path(name) matches Some(path) ==> safe_relative(path),
{
    lemma_components(slashed(name), 0, 0);
    lemma_save_path_is_safe(components(slashed(name)), 0, Seq::empty());
}

fn contains_char(text: &[char], character: char) -> (result: bool)
    ensures
        result == has_char(text@, character),
{
    let mut index: usize = 0;
    while index < text.len()
        invariant
            index <= text@.len(),
            forall|i: int| 0 <= i < index ==> #[trigger] text@[i] != character,
        decreases text@.len() - index,
    {
        if text[index] == character {
            return true;
        }
        index = index + 1;
    }
    false
}

/// Path of a saved file below the save directory. Nothing is returned where the
/// name is not accepted.
pub fn save_file_path(name: &str) -> (result: Option<String>)
    ensures
        match save_path(name@) {
            Some(path) => result matches Some(text) && text@ == path,
            None => result is None,
        },
        result matches Some(text) ==> safe_relative(text@),
{
    proof {
        law_saved_files_stay_in_their_directory(name@);
    }
    let chars: Vec<char> = to_slashes(name);
    let mut path: Vec<char> = Vec::new();
    let mut start: usize = 0;
    let mut number: usize = 0;
    let ghost all = components(chars@);
    proof {
        lemma_components_len(chars@, 0, 0);
        assert(all.skip(0) =~= all);
        assert(path@ =~= Seq::<char>::empty());
    }
    loop
        invariant
            save_path(name@) matches Some(path) ==> safe_relative(path),
            start <= chars@.len(),
            number <= start,
            chars@ == slashed(name@),
            all == components(chars@),
            number < all.len(),
            all.skip(number as int) == components_from(chars@, start as int, start as int),
            save_path(name@) == save_path_from(all, number as int, path@),
        decreases chars@.len() - start,
    {
        let end: usize = find_slash(chars.as_slice(), start);
        let component = vstd::slice::slice_subrange(chars.as_slice(), start, end);
        assert(all.skip(number as int)[0] == all[number as int]);
        assert(component@ == all[number as int]);
        let skip: bool = component.len() == 0 || (component.len() == 1 && component[0] == '.');
        assert(component@ == seq!['.'] <==> component@.len() == 1 && component@[0] == '.') by {
            if component@.len() == 1 && component@[0] == '.' {
                assert(component@ =~= seq!['.']);
            }
        }
        assert(component@ == seq!['.', '.'] <==> component@.len() == 2 && component@[0] == '.'
            && component@[1] == '.') by {
            if component@.len() == 2 && component@[0] == '.' && component@[1] == '.' {
                assert(component@ =~= seq!['.', '.']);
            }
        }
        if !skip {
            if (component.len() == 2 && component[0] == '.' && component[1] == '.')
                || contains_char(component, '\0') {
                return None;
            }
            let drive: bool = number == 0 && component.len() == 2 && (('A' <= component[0]
                && component[0] <= 'Z') || ('a' <= component[0] && component[0] <= 'z'))
                && component[1] == ':';
            let kept = if drive {
                vstd::slice::slice_subrange(component, 0, 1)
            } else {
                component
            };
            assert(drive ==> kept@ =~= component@.take(1));
            if contains_char(kept, ':') {
                return None;
            }
            let ghost before = path@;
            if path.len() > 0 {
                path.push('/');
            }
            path.extend_from_slice(kept);
            assert(path@ =~= with_component(before, kept@));
        }
        assert(save_path(name@) == save_path_from(all, number + 1, path@));
        if end >= chars.len() {
            assert(all.skip(number as int).len() == 1);
            assert(all.len() == number + 1);
            if path.len() == 0 {
                return None;
            }
            return Some(from_chars(path.as_slice()));
        }
        proof {
            let rest = components_from(chars@, end + 1, end + 1);
            lemma_components_len(chars@, end + 1, end + 1);
            assert(all.skip(number + 1) =~= all.skip(number as int).skip(1));
            assert(all.skip(number as int).skip(1) =~= rest);
        }
        start = end + 1;
        number = number + 1;
    }
}

proof fn lemma_components_len(path: Seq<char>, start: int, at: int)
    requires
        0 <= at,
    ensures
        components_from(path, start, at).len() > 0,
    decreases path.len() - at,
{
    if at < path.len() && path[at] != '/' {
        lemma_components_len(path, start, at + 1);
    }
}

/// Position of the next slash, or the end.
fn find_slash(path: &[char], start: usize) -> (end: usize)
    requires
        start <= path@.len(),
    ensures
        start <= end <= path@.len(),
        end < path@.len() ==> {
            &&& path@[end as int] == '/'
            &&& components_from(path@, start as int, start as int) == seq![
                path@.subrange(start as int, end as int),
            ] + components_from(path@, end + 1, end + 1)
        },
        end == path@.len() ==> components_from(path@, start as int, start as int) == seq![
            path@.subrange(start as int, end as int),
        ],
{
    let mut end: usize = start;
    while end < path.len() && path[end] != '/'
        invariant
            start <= end <= path@.len(),
            components_from(path@, start as int, start as int) == components_from(
                path@,
                start as int,
                end as int,
            ),
        decreases path@.len() - end,
    {
        end = end + 1;
    }
    end
}

} // verus!
