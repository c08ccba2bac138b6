//! The profile of the user as data.

use crate::schema::ast::strings_view;
use crate::state::traits::{Entity, SyncData, UpdateConfig};
use crate::state::StateSystem;
use crate::user::synchronize::synchronize_user_to_state_system;
use vstd::prelude::*;

verus! {

/// The profile of the user.
#[derive(Debug, PartialEq, Eq)]
pub struct User {
    pub user_id: String,
    pub user_name: String,
    pub total_play_time: usize,
    pub library_paths: Vec<String>,
    pub folders: Vec<String>,
}

/// What a [`User`] stands for.
pub struct UserView {
    pub user_id: Seq<char>,
    pub user_name: Seq<char>,
    pub total_play_time: usize,
    pub library_paths: Seq<Seq<char>>,
    pub folders: Seq<Seq<char>>,
}

impl View for User {
    type V = UserView;

    open spec fn view(&self) -> UserView {
        UserView {
            user_id: self.user_id@,
            user_name: self.user_name@,
            total_play_time: self.total_play_time,
            library_paths: strings_view(self.library_paths@),
            folders: strings_view(self.folders@),
        }
    }
}

fn clone_strings(strings: &Vec<String>) -> (out: Vec<String>)
    ensures
        strings_view(out@) == strings_view(strings@),
{
    let mut out: Vec<String> = Vec::new();
    let mut i: usize = 0;
    while i < strings.len()
        invariant
            i <= strings.len(),
            out@.len() == i,
            forall|j: int| 0 <= j < i ==> (#[trigger] out@[j])@ == strings@[j]@,
        decreases strings.len() - i,
    {
        out.push(strings[i].clone());
        i = i + 1;
    }
    assert(strings_view(out@) =~= strings_view(strings@));
    out
}

impl Clone for User {
    fn clone(&self) -> (r: User)
        ensures
            r@ == self@,
    {
        User {
            user_id: self.user_id.clone(),
            user_name: self.user_name.clone(),
            total_play_time: self.total_play_time,
            library_paths: clone_strings(&self.library_paths),
            folders: clone_strings(&self.folders),
        }
    }
}

impl Default for User {
    /// The profile of nobody: no name, no time played, no path.
    fn default() -> (r: User)
        ensures
            r@ == (UserView {
                user_id: Seq::empty(),
                user_name: Seq::empty(),
                total_play_time: 0,
                library_paths: Seq::empty(),
                folders: Seq::empty(),
            }),
    {
        let library_paths: Vec<String> = Vec::new();
        let folders: Vec<String> = Vec::new();
        assert(strings_view(library_paths@) =~= Seq::empty());
        assert(strings_view(folders@) =~= Seq::empty());
        User {
            user_id: String::new(),
            user_name: String::new(),
            total_play_time: 0,
            library_paths,
            folders,
        }
    }
}

impl Entity for User {

}

impl UpdateConfig<User> for User {
    /// The profile is replaced as a whole.
    open spec fn updates(&self, before: User, after: User) -> bool {
        after@ == self@
    }

    fn update(&self, user_profile: &mut User) {
        *user_profile = self.clone();
    }
}

impl SyncData for User {
    type Event = User;

    /// The store then holds this profile.
    open spec fn synced(&self, before: StateSystem, after: StateSystem) -> bool {
        after.user@ == self@
    }

    /// The profile itself is published.
    open spec fn announces(&self, event: User) -> bool {
        event@ == self@
    }

    fn sync_data(&self, state: &mut StateSystem) {
        synchronize_user_to_state_system(state, self);
    }

    fn publish_sync_event(&self) -> (event: User) {
        self.clone()
    }
}

} // verus!
