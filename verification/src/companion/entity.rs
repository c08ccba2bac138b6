//! Companion programs as data.

use vstd::prelude::*;

verus! {

/// A companion program, as the user set it up.
#[derive(Debug, PartialEq, Eq)]
pub struct Companion {
    pub id: Option<i32>,
    pub name: String,
    pub path: String,
    pub args: Option<String>,
    pub is_enabled: bool,
    /// Whether the program's windows are shown and hidden with the
    /// application's.
    pub is_window_managed: bool,
    /// `app` or `game`.
    pub trigger_mode: String,
    pub sort_order: i32,
    pub description: Option<String>,
}

/// A companion that is running: the id of its process, and whether its
/// windows are managed.
#[derive(Debug, Clone, Copy, PartialEq, Eq, Structural)]
pub struct ActiveProcess {
    pub pid: u32,
    pub is_window_managed: bool,
}

} // verus!
