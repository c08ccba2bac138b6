//! Shortcuts as data.

use vstd::prelude::*;

verus! {

/// A shortcut: the action it triggers, its keys, and whether it works
/// while the application is in the background.
#[derive(Debug, PartialEq, Eq)]
pub struct ShortcutSetting {
    pub id: String,
    pub key_combo: Option<String>,
    pub is_global: bool,
}

} // verus!
