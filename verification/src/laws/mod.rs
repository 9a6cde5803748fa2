//! What the machine is for, stated on words, bytes and texts.

pub mod asking;
pub mod blocks;
pub mod calls;
pub mod choosing;
pub mod compiling;
pub mod control;
pub mod devices;
pub mod formatting;
pub mod keeping;
pub mod naming;
pub mod opening;
pub mod places;
pub mod places_of_files;
pub mod registers;
pub mod reporting;
pub mod scheduling;
pub mod sound;
pub mod starting;
pub mod texts;
pub mod transfers;
pub mod turns;
