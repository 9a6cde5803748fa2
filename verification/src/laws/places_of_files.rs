//! Directories of the host, and which states can be restored.

use crate::diagnostics::content_name_of;
use crate::directories::{
    fitting, joined_parts, lemma_joined_parts, lemma_scan_parts, nothing_read, parent_of,
    path_parts, plain_part, scanned, stripped,
};
use crate::emulator::{load_obstacle, Emulator};
use crate::files::OpenFile;
use crate::laws::naming::{climbs, is_plain, lemma_climbs, with_slashes_between};
use crate::paths::{has_char, joined, safe_relative, with_component};
use crate::state::{
    absolute_path, refusal, relative_path, restore_obstacle, text_view, EmulatorState, StateError,
};
use vstd::prelude::*;

verus! {

/// Whether all parts of a path are plain ones.
pub open spec fn all_plain(parts: Seq<Seq<char>>) -> bool {
    forall|i: int| 0 <= i < parts.len() ==> is_plain(#[trigger] parts[i])
}

proof fn lemma_plain_fits(parts: Seq<Seq<char>>)
    requires
        all_plain(parts),
    ensures
        fitting(parts, false),
        fitting(parts, true),
{
    assert forall|i: int| 0 <= i < parts.len() implies plain_part(#[trigger] parts[i]) by {
        assert(is_plain(parts[i]));
        if parts[i] == seq!['.'] {
            assert(parts[i][0] == '.');
        }
        assert(!has_char(parts[i], '/'));
    }
}

proof fn lemma_joined(parts: Seq<Seq<char>>)
    requires
        all_plain(parts),
    ensures
        joined_parts(parts) == with_slashes_between(parts),
        parts.len() > 0 ==> joined_parts(parts).len() > 0,
        parts.len() == 0 ==> joined_parts(parts).len() == 0,
    decreases parts.len(),
{
    if parts.len() > 0 {
        let earlier = parts.drop_last();
        assert forall|i: int| 0 <= i < earlier.len() implies is_plain(#[trigger] earlier[i]) by {
            assert(is_plain(parts[i]));
        }
        lemma_joined(earlier);
        assert(is_plain(parts[parts.len() - 1]));
        if parts.len() == 1 {
            assert(with_component(joined_parts(earlier), parts.last()) =~= parts[0]);
        } else {
            let front = joined_parts(earlier);
            assert(front.push('/') =~= front + seq!['/']);
        }
    }
}

/// The parts of a path are what stands between its slashes, behind the root where it
/// begins with one.
pub proof fn law_parts_of_paths(parts: Seq<Seq<char>>)
    requires
        parts.len() > 0,
        all_plain(parts),
    ensures
        path_parts(with_slashes_between(parts)) == parts,
        path_parts(seq!['/'] + with_slashes_between(parts)) == seq![seq!['/']] + parts,
{
    lemma_plain_fits(parts);
    lemma_joined(parts);
    lemma_scan_parts(nothing_read(), parts);
    assert(nothing_read().parts + parts =~= parts);
    let root = seq!['/'];
    assert(root.drop_last() =~= Seq::<char>::empty());
    assert(scanned(nothing_read(), root.drop_last()) == nothing_read());
    assert(path_parts(root) =~= seq![seq!['/']]);
    lemma_joined_parts(root, parts);
    assert(joined(root, joined_parts(parts)) =~= seq!['/'] + with_slashes_between(parts));
}

/// The directory of a path is the path without its last part.
pub proof fn law_directories_of_paths(parts: Seq<Seq<char>>)
    requires
        parts.len() > 0,
        all_plain(parts),
    ensures
        parent_of(with_slashes_between(parts)) == Some(with_slashes_between(parts.drop_last())),
        parent_of(seq!['/'] + with_slashes_between(parts)) == Some(
            seq!['/'] + with_slashes_between(parts.drop_last()),
        ),
{
    law_parts_of_paths(parts);
    let earlier = parts.drop_last();
    assert forall|i: int| 0 <= i < earlier.len() implies is_plain(#[trigger] earlier[i]) by {
        assert(is_plain(parts[i]));
    }
    lemma_joined(earlier);
    let root = seq!['/'];
    assert(root[0] == '/');
    assert(is_plain(parts[0]));
    assert(is_plain(parts[parts.len() - 1]));
    assert(parts[0] != root) by {
        if parts[0] == root {
            assert(parts[0][0] == '/');
        }
    }
    assert(parts.last() != root) by {
        if parts.last() == root {
            assert(parts.last()[0] == '/');
        }
    }
    let all = seq![root] + parts;
    assert(all[0] == root);
    assert(all.last() == parts.last());
    assert(all.subrange(1, all.len() - 1) =~= earlier);
}

/// A path is seen from a directory as what comes behind that directory's parts, and not at
/// all where it begins with other parts.
pub proof fn law_paths_seen_from_directories(
    directory: Seq<Seq<char>>,
    rest: Seq<Seq<char>>,
    other: Seq<Seq<char>>,
)
    requires
        directory.len() > 0,
        rest.len() > 0,
        other.len() > 0,
        all_plain(directory),
        all_plain(rest),
        all_plain(other),
    ensures
        stripped(
            with_slashes_between(directory),
            with_slashes_between(directory + rest),
        ) == Some(with_slashes_between(rest)),
        !directory.is_prefix_of(other) ==> stripped(
            with_slashes_between(directory),
            with_slashes_between(other),
        ) is None,
{
    let whole = directory + rest;
    assert(all_plain(whole)) by {
        assert forall|i: int| 0 <= i < whole.len() implies is_plain(#[trigger] whole[i]) by {
            if i < directory.len() {
                assert(is_plain(directory[i]));
            } else {
                assert(is_plain(rest[i - directory.len()]));
            }
        }
    }
    law_parts_of_paths(directory);
    law_parts_of_paths(whole);
    law_parts_of_paths(other);
    lemma_joined(rest);
    assert(directory.is_prefix_of(whole));
    assert(whole.skip(directory.len() as int) =~= rest);
}

/// The content is named by the last part of its path.
pub proof fn law_names_of_content(parts: Seq<Seq<char>>)
    requires
        parts.len() > 0,
        all_plain(parts),
    ensures
        content_name_of(with_slashes_between(parts)) == parts.last(),
        content_name_of(seq!['/'] + with_slashes_between(parts)) == parts.last(),
{
    law_parts_of_paths(parts);
    let last = parts[parts.len() - 1];
    assert(is_plain(last));
    assert((seq![seq!['/']] + parts).last() == last);
    assert(last != seq!['/']) by {
        if last == seq!['/'] {
            assert(last[0] == '/');
        }
    }
    assert(last != seq!['.']) by {
        if last == seq!['.'] {
            assert(last[0] == '.');
        }
    }
    assert(last != seq!['.', '.']) by {
        if last == seq!['.', '.'] {
            assert(last[0] == '.' && last[1] == '.');
        }
    }
}

/// A path stays below a directory where it names something, does not begin at the root and
/// climbs nowhere.
pub proof fn law_paths_that_are_safe(path: Seq<char>)
    ensures
        safe_relative(path) <==> path.len() > 0 && path[0] != '/' && !climbs(path),
{
    lemma_climbs(path);
}

proof fn lemma_restorable(files: Seq<(u32, OpenFile)>, directory: Option<Seq<char>>, from: int)
    requires
        0 <= from <= files.len(),
    ensures
        restore_obstacle(files, directory, from) is None <==> forall|i: int|
            from <= i < files.len() ==> absolute_path(
                directory,
                (#[trigger] files[i]).1@.save_path,
            ) is Ok,
    decreases files.len() - from,
{
    if from < files.len() {
        lemma_restorable(files, directory, from + 1);
        if restore_obstacle(files, directory, from) is None {
            assert forall|i: int| from <= i < files.len() implies absolute_path(
                directory,
                (#[trigger] files[i]).1@.save_path,
            ) is Ok by {
                if i > from {
                    assert(from + 1 <= i);
                }
            }
        } else if forall|i: int|
            from <= i < files.len() ==> absolute_path(
                directory,
                (#[trigger] files[i]).1@.save_path,
            ) is Ok {
            assert(absolute_path(directory, files[from].1@.save_path) is Ok);
        }
    }
}

/// A state is restored exactly where there is an application that can be loaded, memory
/// and picture have their sizes and the heap lies in its bounds, there are at most sixteen
/// tasks and the active one is among them, and every saved file has a safe path below a
/// save directory.
pub proof fn law_states_that_are_restored(emulator: Emulator, state: EmulatorState)
    ensures
        refusal(emulator, state) is None <==> {
            let directory = emulator.save_directory;
            let tasks = state.scheduler.tasks@;
            &&& emulator.app is Some
            &&& load_obstacle(emulator.app->0) is None
            &&& state.memory.ram@.len() == 32 * 1048576
            &&& state.memory.framebuffer@.len() == 256 * 1024
            &&& 0x0180_0000 <= state.memory.heap_next <= 0x01f0_0000
            &&& state.video.framebuffer@.len() == 2 * 320 * 240
            &&& tasks.len() <= 16
            &&& state.scheduler.active_task is Some ==> state.scheduler.active_task->0
                < tasks.len()
            &&& forall|i: int|
                0 <= i < state.open_files@.len() ==> {
                    let path = (#[trigger] state.open_files@[i]).1.save_path;
                    path is Some ==> directory is Some && path->0@.len() > 0 && path->0@[0] != '/'
                        && !climbs(path->0@)
                }
        },
{
    let directory = text_view(emulator.save_directory);
    lemma_restorable(state.open_files@, directory, 0);
    assert forall|i: int| 0 <= i < state.open_files@.len() implies (absolute_path(
        directory,
        (#[trigger] state.open_files@[i]).1@.save_path,
    ) is Ok <==> {
        let path = state.open_files@[i].1.save_path;
        path is Some ==> emulator.save_directory is Some && path->0@.len() > 0 && path->0@[0]
            != '/' && !climbs(path->0@)
    }) by {
        if let Some(path) = state.open_files@[i].1.save_path {
            law_paths_that_are_safe(path@);
        }
    }
}

/// Why the path of a file is not restored: it is not safe, or else there is no directory
/// for it. Why it is not saved: there is no directory, or it lies elsewhere, or it is not
/// safe.
pub proof fn law_why_paths_are_refused(directory: Option<Seq<char>>, path: Seq<char>)
    ensures
        ({
            let unsafe_path = path.len() == 0 || path[0] == '/' || climbs(path);
            let restored_path = absolute_path(directory, Some(path));
            &&& unsafe_path ==> restored_path == Err::<Option<Seq<char>>, StateError>(
                StateError::UnsafePath,
            )
            &&& !unsafe_path && directory is None ==> restored_path == Err::<
                Option<Seq<char>>,
                StateError,
            >(StateError::NoSaveDirectory)
            &&& !unsafe_path && directory is Some ==> restored_path == Ok::<
                Option<Seq<char>>,
                StateError,
            >(Some(joined(directory->0, path)))
        }),
        directory is None ==> relative_path(directory, Some(path)) == Err::<
            Option<Seq<char>>,
            StateError,
        >(StateError::NoSaveDirectory),
        directory matches Some(directory) ==> match stripped(directory, path) {
            None => relative_path(Some(directory), Some(path)) == Err::<
                Option<Seq<char>>,
                StateError,
            >(StateError::OutsideSaveDirectory),
            Some(rest) => relative_path(Some(directory), Some(path)) == if rest.len() == 0 || rest[0]
                == '/' || climbs(rest) {
                Err::<Option<Seq<char>>, StateError>(StateError::UnsafePath)
            } else {
                Ok(Some(rest))
            },
        },
        absolute_path(directory, None) == Ok::<Option<Seq<char>>, StateError>(None),
        relative_path(directory, None) == Ok::<Option<Seq<char>>, StateError>(None),
{
    law_paths_that_are_safe(path);
    if let Some(directory) = directory {
        if let Some(rest) = stripped(directory, path) {
            law_paths_that_are_safe(rest);
        }
    }
}

/// Why a state is refused is told in this order: there is no application, memory or
/// picture have other sizes, the tasks are not valid, a path is not, or the application
/// cannot be loaded.
pub proof fn law_why_states_are_refused(emulator: Emulator, state: EmulatorState)
    ensures
        ({
            let reason = refusal(emulator, state);
            let sized = state.memory.ram@.len() == 32 * 1048576
                && state.memory.framebuffer@.len() == 256 * 1024 && 0x0180_0000
                <= state.memory.heap_next <= 0x01f0_0000 && state.video.framebuffer@.len() == 2
                * 320 * 240;
            let tasks = state.scheduler.tasks@.len();
            let valid = tasks <= 16 && (state.scheduler.active_task is None
                || state.scheduler.active_task->0 < tasks);
            &&& emulator.app is None ==> reason == Some(StateError::NoContent)
            &&& emulator.app is Some && !sized ==> reason == Some(StateError::IncompatibleMemory)
            &&& emulator.app is Some && sized && !valid ==> reason == Some(StateError::InvalidTasks)
            &&& emulator.app is Some && sized && valid && restore_obstacle(
                state.open_files@,
                text_view(emulator.save_directory),
                0,
            ) is None ==> match load_obstacle(emulator.app->0) {
                Some(address) => reason == Some(StateError::Unloadable(address)),
                None => reason is None,
            }
        }),
{
}

} // verus!
