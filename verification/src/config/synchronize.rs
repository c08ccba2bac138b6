//! Bringing new data into the configuration and into the store at once.

use crate::config::entity::Config;
use crate::state::traits::{Registerable, SyncData, UpdateConfig};
use crate::state::StateSystem;
use vstd::prelude::*;

verus! {

/// Brings the configuration up to date with `new_value` and carries
/// `new_value` over to the store. Where `mode` is set, returns the event
/// that tells the other modules to work on it, for the caller to publish.
pub fn update_data<T: UpdateConfig<Config> + SyncData>(
    new_value: T,
    mode: bool,
    global_config: &mut Config,
    state: &mut StateSystem,
) -> (event: Option<T::Event>)
    ensures
        new_value.updates(*old(global_config), *final(global_config)),
        new_value.synced(*old(state), *final(state)),
        mode ==> event is Some && new_value.announces(event->0),
        !mode ==> event is None,
{
    new_value.update(global_config);
    new_value.sync_data(state);
    if mode {
        Some(new_value.publish_sync_event())
    } else {
        None
    }
}

/// Adds `new_data` to the configuration and carries it over to the store.
/// Returns the event that tells the other modules of it, for the caller to
/// publish.
pub fn add_data<T: Registerable<Config> + SyncData>(
    new_data: T,
    global_config: &mut Config,
    state: &mut StateSystem,
) -> (event: T::Event)
    ensures
        new_data.registers(*old(global_config), *final(global_config)),
        new_data.synced(*old(state), *final(state)),
        new_data.announces(event),
{
    new_data.add_to_self_module(global_config);
    new_data.sync_data(state);
    new_data.publish_sync_event()
}

} // verus!
