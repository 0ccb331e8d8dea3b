//! The filesystem as the library sees it: a trait that callers implement, and
//! the plain values that cross it.
use vstd::prelude::*;
use crate::clock::Moment;

verus! {

/// Why a filesystem operation failed, as the adapter reports it.
#[derive(Clone, Debug, PartialEq, Eq)]
pub struct IoFailure {
    pub message: String,
}

/// What the adapter knows of a path's dates, each already resolved to the
/// zone it is to be shown in. A date that cannot be had is `None`.
#[derive(Clone, Copy, Debug, PartialEq, Eq)]
pub struct Metadata {
    pub created: Option<Moment>,
    pub modified: Option<Moment>,
    pub captured: Option<Moment>,
}

/// The operations on the filesystem that the library consumes. The library
/// never touches the disk itself; every probe and every rename goes through an
/// implementation of this trait. Nothing is assumed of what the methods
/// return.
pub trait FileSystem {
    /// Whether something exists at the path.
    fn path_exists(&self, path: &str) -> bool;

    /// Whether the path names a directory.
    fn is_dir(&self, path: &str) -> bool;

    /// Renames `from` to `to`.
    fn rename(&self, from: &str, to: &str) -> Result<(), IoFailure>;

    /// The dates of the file at the path.
    fn metadata(&self, path: &str) -> Result<Metadata, IoFailure>;

    /// Whether names that differ only by case are different files where the
    /// path lives.
    fn is_case_sensitive(&self, path: &str) -> bool;
}

} // verus!
