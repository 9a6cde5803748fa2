//! The functions of the console's SDK, which the machine carries out itself.

pub mod call;
pub mod dispatch;
pub mod files;
pub mod media;
pub mod system;
pub mod tasks;
