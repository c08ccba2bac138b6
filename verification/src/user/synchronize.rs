//! Keeping the profile of the user and the store in step.

use crate::state::traits::{SyncData, UpdateConfig};
use crate::state::{set_user_info, StateSystem};
use crate::user::entity::User;
use vstd::prelude::*;

verus! {

/// Brings the profile of the user up to date with `new_value`, then
/// carries `new_value` over to the store.
pub fn update_data<T: UpdateConfig<User> + SyncData>(
    new_value: T,
    user_profile: &mut User,
    state: &mut StateSystem,
)
    ensures
        new_value.updates(*old(user_profile), *final(user_profile)),
        new_value.synced(*old(state), *final(state)),
{
    new_value.update(user_profile);
    new_value.sync_data(state);
}

/// Puts a copy of `new_user` into the store.
pub fn synchronize_user_to_state_system(state: &mut StateSystem, new_user: &User)
    ensures
        final(state).user@ == new_user@,
{
    set_user_info(state, new_user.clone());
}

} // verus!
