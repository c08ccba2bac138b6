//! What a shortcut sets off, and which shortcuts are listened for.

use crate::companion::commands::controlled_pids;
use crate::companion::entity::ActiveProcess;
use crate::game::entity::RunningGameStatus;
use crate::shortcut::entity::ShortcutSetting;
use vstd::prelude::*;

verus! {

/// What a shortcut sets off.
#[derive(Debug, Clone, Copy, PartialEq, Eq, Structural)]
pub enum ShortcutAction {
    /// Start the game that was played last.
    LaunchLast,
    /// Hide the application and what it started, or show them again.
    BossKey,
    /// Stop every game and every companion.
    EmergencyStop,
    /// Take a screenshot of the running game.
    Screenshot,
    /// Nothing: the shortcut is not known.
    Unknown,
}

/// What the shortcut of the given id sets off.
pub fn handle_shortcut_action(id: &str) -> (action: ShortcutAction)
    ensures
        action == if id@ == "launch_last"@ {
            ShortcutAction::LaunchLast
        } else if id@ == "boss_key"@ {
            ShortcutAction::BossKey
        } else if id@ == "emergency_stop"@ {
            ShortcutAction::EmergencyStop
        } else if id@ == "screenshot"@ {
            ShortcutAction::Screenshot
        } else {
            ShortcutAction::Unknown
        },
{
    let given: String = id.to_owned();
    if given == "launch_last".to_owned() {
        ShortcutAction::LaunchLast
    } else if given == "boss_key".to_owned() {
        ShortcutAction::BossKey
    } else if given == "emergency_stop".to_owned() {
        ShortcutAction::EmergencyStop
    } else if given == "screenshot".to_owned() {
        ShortcutAction::Screenshot
    } else {
        ShortcutAction::Unknown
    }
}

/// What the boss key does: whether the windows are shown or hidden, and the
/// processes whose windows follow the main window.
#[derive(Debug, PartialEq, Eq)]
pub struct BossKeyPlan {
    pub visible: bool,
    pub pids: Vec<u32>,
}

/// The process ids of the running games, in their order.
pub open spec fn game_pids(games: Seq<RunningGameStatus>) -> Seq<u32> {
    Seq::new(games.len(), |i: int| games[i].game_pid)
}

/// What the boss key does: windows that are visible are hidden and windows
/// that are hidden are shown; with the main window go the windows of the
/// running games and of the companions whose windows are managed.
pub fn boss_key(
    is_currently_visible: bool,
    games: &Vec<RunningGameStatus>,
    companions: &Vec<ActiveProcess>,
) -> (plan: BossKeyPlan)
    ensures
        plan.visible == !is_currently_visible,
        plan.pids@ == game_pids(games@) + controlled_pids(companions@, companions.len() as int),
{
    let mut pids: Vec<u32> = Vec::new();
    let mut i: usize = 0;
    while i < games.len()
        invariant
            i <= games.len(),
            pids@ == game_pids(games@).take(i as int),
        decreases games.len() - i,
    {
        pids.push(games[i].game_pid);
        assert(game_pids(games@).take(i + 1) =~= game_pids(games@).take(i as int).push(
            games@[i as int].game_pid,
        ));
        i = i + 1;
    }
    assert(game_pids(games@).take(games.len() as int) =~= game_pids(games@));
    let ghost first = pids@;
    let mut k: usize = 0;
    while k < companions.len()
        invariant
            k <= companions.len(),
            pids@ == first + controlled_pids(companions@, k as int),
        decreases companions.len() - k,
    {
        if companions[k].is_window_managed {
            pids.push(companions[k].pid);
        }
        assert(pids@ =~= first + controlled_pids(companions@, k + 1));
        k = k + 1;
    }
    BossKeyPlan { visible: !is_currently_visible, pids }
}

/// Whether a shortcut is listened for: it works in the background and has
/// its keys.
pub open spec fn is_listened(setting: ShortcutSetting) -> bool {
    setting.is_global && setting.key_combo is Some
}

/// The places of the first `k` settings that are listened for, in order.
pub open spec fn listened(settings: Seq<ShortcutSetting>, k: int) -> Seq<usize>
    decreases k,
{
    if k <= 0 || k > settings.len() {
        Seq::empty()
    } else if is_listened(settings[k - 1]) {
        listened(settings, k - 1).push((k - 1) as usize)
    } else {
        listened(settings, k - 1)
    }
}

/// The places of the shortcuts to listen for, after all that were listened
/// for are forgotten: none where the shortcuts are switched off, else those
/// that work in the background and have their keys.
pub fn refresh_shortcuts(settings: &Vec<ShortcutSetting>, is_shortcut_enabled: bool) -> (places: Vec<
    usize,
>)
    ensures
        !is_shortcut_enabled ==> places@ == Seq::<usize>::empty(),
        is_shortcut_enabled ==> places@ == listened(settings@, settings.len() as int),
{
    let mut places: Vec<usize> = Vec::new();
    if !is_shortcut_enabled {
        return places;
    }
    let mut i: usize = 0;
    while i < settings.len()
        invariant
            i <= settings.len(),
            places@ == listened(settings@, i as int),
        decreases settings.len() - i,
    {
        if settings[i].is_global && settings[i].key_combo.is_some() {
            places.push(i);
        }
        i = i + 1;
    }
    places
}

} // verus!
