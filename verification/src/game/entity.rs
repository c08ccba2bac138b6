//! Games as data.

use vstd::prelude::*;

verus! {

/// A game that is running.
#[derive(Debug, Clone, Copy, PartialEq, Eq, Structural)]
pub struct RunningGameStatus {
    pub game_pid: u32,
}

/// Which resources of a game are to be fetched.
#[derive(Debug, Clone, Copy, PartialEq, Eq, Structural)]
pub enum ResourceTarget {
    All,
    CoverOnly,
    BackgroundOnly,
}

/// One entry of an archive.
#[derive(Debug, PartialEq, Eq)]
pub struct ArchiveEntry {
    pub name: String,
    pub size: u64,
    pub is_dir: bool,
    pub encrypted: bool,
}

} // verus!
