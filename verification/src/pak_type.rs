//! The persistence styles a container can be backed by.

use vstd::prelude::*;

verus! {

/// Which kind of source the container was opened from.
#[derive(Clone, Copy, PartialEq, Eq, Structural, Debug)]
pub enum PakFileType {
    /// A pak whose layout came from a format reader in the pool.
    Reader,
    /// A classic pak with the built-in fixed layout.
    Classic,
    /// A virtual, read-only container loaded from CSV text.
    Csv,
}

} // verus!
