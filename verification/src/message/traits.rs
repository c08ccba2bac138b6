//! What every published event has in common.

use vstd::prelude::*;

verus! {

/// Marks a type whose values can be published.
pub trait MessageEvent {

}

} // verus!
