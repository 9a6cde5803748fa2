# dingooemu

The logic of an emulator for Dingoo A320 applications, written in Verus and
proved against contracts.

The library holds the guest machine: memory, the MIPS interpreter, the lowering
of guest code to an intermediate form that a host can turn into native code,
tasks and semaphores, guest files and searches, the firmware functions that
applications import, sound resampling, save states, performance diagnostics and
what a libretro frontend asks for. It performs no input or output. Where a
firmware function needs the host, the library says what it needs
(`sdk_hle::files::host_request`) and takes the reply.

## Layout

- `src/memory.rs`, `src/cpu.rs`, `src/isa.rs`, `src/code_cache.rs`: the machine
  and its interpreter.
- `src/jit/`: which blocks are compiled (`engine`), what can be compiled
  (`block`), the intermediate form and its meaning (`ir`), and the lowering,
  proved to agree with the interpreter (`lower`).
- `src/emulator.rs`, `src/state.rs`, `src/save_state.rs`: the machine as a
  whole, its frames, its saved states and the container they are kept in.
- `src/sdk_hle/`: the firmware functions.
- `src/files.rs`, `src/search.rs`, `src/paths.rs`, `src/directories.rs`,
  `src/resource.rs`: files, searches and the names they go by.
- `src/text.rs`, `src/printf.rs`: guest strings and formatting.
- `src/tasks.rs`, `src/audio.rs`, `src/host_audio.rs`, `src/input.rs`,
  `src/unknown_hle.rs`, `src/game_enhancements.rs`: the remaining parts of the
  machine.
- `src/options.rs`, `src/frontend.rs`, `src/diagnostics.rs`: options, the
  frontend and the diagnostic report.
- `src/outside.rs`: the functions of other crates, with what is relied on.
- `app/`: a libretro core around the library, with file access, native code
  through Cranelift, floating-point sound rendering and serialization.
- `tests/`: tests of the library.

Paths on the host are texts with `/` between their components; an absolute one
begins with it. Where drive letters make other paths absolute, `app/` sees to that.

Functions named `law_...` state what holds of several functions together.
