//! A parsed application.

use vstd::prelude::*;

verus! {

/// A name that an application imports or exports, with its guest address.
#[derive(Debug)]
pub struct Symbol {
    pub name: String,
    pub address: u32,
}

/// How a resource is stored in an application file.
#[derive(Clone, Copy, Debug, PartialEq, Eq, Structural)]
pub enum ResourceKind {
    /// As it is.
    Plain,
    /// With the packer's reduced record header.
    Packed,
}

/// What the emulator needs of an application file.
#[derive(Debug)]
pub struct AppImage {
    /// The whole file.
    pub data: Vec<u8>,
    /// Guest address of the executable part.
    pub load_base: u32,
    /// Guest address at which execution starts.
    pub entry_point: u32,
    /// The executable part.
    pub executable: Vec<u8>,
    pub imports: Vec<Symbol>,
    pub exports: Vec<Symbol>,
}

} // verus!
