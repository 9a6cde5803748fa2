//! A verified core for emulating MIPS handheld applications.

pub mod app_image;
pub mod audio;
pub mod code_cache;
pub mod cpu;
pub mod diagnostics;
pub mod directories;
pub mod emulator;
pub mod error;
pub mod files;
pub mod frontend;
pub mod game_enhancements;
pub mod host_audio;
pub mod input;
pub mod isa;
pub mod jit;
pub mod laws;
pub mod memory;
pub mod options;
pub mod outside;
pub mod paths;
pub mod printf;
pub mod resource;
pub mod save_state;
pub mod sdk_hle;
pub mod search;
pub mod state;
pub mod tasks;
pub mod text;
pub mod unknown_hle;

