//! The application-wide store of data. Each kind of data is written only by
//! the module that owns it, and read by everyone.

use crate::error::AppError;
use crate::user::entity::User;
use vstd::prelude::*;

pub mod traits;

verus! {

/// The store: here the profile of the user.
#[derive(Debug, PartialEq, Eq)]
pub struct StateSystem {
    pub user: User,
}

/// The profile of the user, as the store holds it.
pub fn get_user_info(state: &StateSystem) -> (r: Result<User, AppError>)
    ensures
        r is Ok,
        r->Ok_0@ == state.user@,
{
    Ok(state.user.clone())
}

/// The settings of the window, as the store holds them. The store holds
/// none so far, and nothing is read.
pub fn get_gui_info() {
}

/// Puts new settings of the window into the store. The store holds none so
/// far, and nothing is written.
pub fn set_gui_info() {
}

/// Puts a new profile of the user into the store.
pub fn set_user_info(state: &mut StateSystem, new_user: User)
    ensures
        final(state).user == new_user,
{
    state.user = new_user;
}

} // verus!
