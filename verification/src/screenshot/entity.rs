//! Screenshots as data.

use vstd::prelude::*;

verus! {

/// A screenshot: the game it shows, where the file lies, when it was taken,
/// and what the user noted on it.
#[derive(Debug, PartialEq, Eq)]
pub struct Screenshot {
    pub id: String,
    pub game_id: String,
    pub file_path: String,
    pub created_at: String,
    pub thoughts: String,
}

} // verus!
