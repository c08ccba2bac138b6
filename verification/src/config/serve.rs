//! Taking changes into the configuration: what each change writes, and
//! what the application has to do about it afterwards.

use crate::config::entity::{
    Config, ConfigEvent, Interface, SideBarMode, Storage, System, ThemeColor, ThemeMode, Basic,
};
use vstd::prelude::*;

verus! {

/// Something that the application has to do after a change of the
/// configuration.
#[derive(Debug, PartialEq, Eq)]
pub enum ConfigAction {
    /// Have the application started with the session, or not any more.
    AutoStart(bool),
    /// Stop the companions and start them again as the configuration says.
    RefreshCompanions,
    /// Register the shortcuts again as the configuration says.
    RefreshShortcuts,
    /// Move the files of one directory to another.
    Migrate { from: String, to: String },
}

/// Sets whether the application starts without a window.
pub fn enable_slient_start(config: &mut Config, yes: bool)
    ensures
        *final(config) == (Config {
            basic: Basic { silent_start: yes, ..old(config).basic },
            ..*old(config)
        }),
{
    config.basic.silent_start = yes;
}

/// Sets whether the application looks for updates by itself.
pub fn enable_auto_update(config: &mut Config, yes: bool)
    ensures
        *final(config) == (Config {
            basic: Basic { auto_check_update: yes, ..old(config).basic },
            ..*old(config)
        }),
{
    config.basic.auto_check_update = yes;
}

/// Sets the language.
pub fn set_language(config: &mut Config, language: String)
    ensures
        *final(config) == (Config { basic: Basic { language, ..old(config).basic }, ..*old(config) }),
{
    config.basic.language = language;
}

/// Switches the companions on or off.
pub fn change_compainion(config: &mut Config, activation: bool) -> (action: ConfigAction)
    ensures
        *final(config) == (Config {
            system: System { companion: activation, ..old(config).system },
            ..*old(config)
        }),
        action == ConfigAction::RefreshCompanions,
{
    config.system.companion = activation;
    ConfigAction::RefreshCompanions
}

/// Switches the shortcuts on or off.
pub fn change_hotkey_activation(config: &mut Config, activation: bool) -> (action: ConfigAction)
    ensures
        *final(config) == (Config {
            system: System { hotkey_activation: activation, ..old(config).system },
            ..*old(config)
        }),
        action == ConfigAction::RefreshShortcuts,
{
    config.system.hotkey_activation = activation;
    ConfigAction::RefreshShortcuts
}

/// Sets what the close button does.
pub fn change_close_button_action(config: &mut Config, action: String)
    ensures
        *final(config) == (Config {
            system: System { close_button_behavior: action, ..old(config).system },
            ..*old(config)
        }),
{
    config.system.close_button_behavior = action;
}

/// Sets the log level.
pub fn change_log_level(config: &mut Config, level: String)
    ensures
        *final(config) == (Config {
            system: System { log_level: level, ..old(config).system },
            ..*old(config)
        }),
{
    config.system.log_level = level;
}

/// Sets how many downloads run at a time.
pub fn set_concurrent_number(config: &mut Config, num: i64)
    ensures
        *final(config) == (Config {
            system: System { download_concurrency: num, ..old(config).system },
            ..*old(config)
        }),
{
    config.system.download_concurrency = num;
}

/// Sets light or dark.
pub fn change_interface_mode(config: &mut Config, mode: ThemeMode)
    ensures
        *final(config) == (Config {
            interface: Interface { theme_mode: mode, ..old(config).interface },
            ..*old(config)
        }),
{
    config.interface.theme_mode = mode;
}

/// Sets the colour scheme.
pub fn change_interface_color(config: &mut Config, color: ThemeColor)
    ensures
        *final(config) == (Config {
            interface: Interface { theme_color: color, ..old(config).interface },
            ..*old(config)
        }),
{
    config.interface.theme_color = color;
}

/// Sets how the side bar behaves.
pub fn change_sidebar_mode(config: &mut Config, mode: SideBarMode)
    ensures
        *final(config) == (Config {
            interface: Interface { sidebar_mode: mode, ..old(config).interface },
            ..*old(config)
        }),
{
    config.interface.sidebar_mode = mode;
}

/// Sets the font.
pub fn change_font_family(config: &mut Config, font: String)
    ensures
        *final(config) == (Config {
            interface: Interface { font_family: font, ..old(config).interface },
            ..*old(config)
        }),
{
    config.interface.font_family = font;
}

/// Sets where the resources of the games are kept. Where the new path is
/// another place than the one in use, which the caller finds out on disk,
/// the path is taken and the files are to be moved; else nothing changes.
pub fn set_game_meta_data_load_path(config: &mut Config, path: String, same_place: bool) -> (action:
    Option<ConfigAction>)
    ensures
        same_place ==> action is None && *final(config) == *old(config),
        !same_place ==> action == Some(
            ConfigAction::Migrate { from: old(config).storage.meta_save_path, to: path },
        ) && *final(config) == (Config {
            storage: Storage { meta_save_path: path, ..old(config).storage },
            ..*old(config)
        }),
{
    if same_place {
        return None;
    }
    let to = path.clone();
    let mut from = path;
    core::mem::swap(&mut config.storage.meta_save_path, &mut from);
    Some(ConfigAction::Migrate { from, to })
}

/// Sets where the backups are kept. Where the new path is another place
/// than the one in use, which the caller finds out on disk, the path is
/// taken and the files are to be moved; else nothing changes.
pub fn set_backup_path(config: &mut Config, path: String, same_place: bool) -> (action: Option<
    ConfigAction,
>)
    ensures
        same_place ==> action is None && *final(config) == *old(config),
        !same_place ==> action == Some(
            ConfigAction::Migrate { from: old(config).storage.backup_save_path, to: path },
        ) && *final(config) == (Config {
            storage: Storage { backup_save_path: path, ..old(config).storage },
            ..*old(config)
        }),
{
    if same_place {
        return None;
    }
    let to = path.clone();
    let mut from = path;
    core::mem::swap(&mut config.storage.backup_save_path, &mut from);
    Some(ConfigAction::Migrate { from, to })
}

/// Sets whether games are backed up when they end.
pub fn set_auto_back_up(config: &mut Config, is_enabled: bool)
    ensures
        *final(config) == (Config {
            storage: Storage { auto_backup: is_enabled, ..old(config).storage },
            ..*old(config)
        }),
{
    config.storage.auto_backup = is_enabled;
}

/// The configuration after a change was taken in. A change of the basic
/// settings leaves `auto_start` as it is: that one is for the system to
/// keep.
pub open spec fn after_event(
    config: Config,
    event: ConfigEvent,
    same_meta_place: bool,
    same_backup_place: bool,
) -> Config {
    match event {
        ConfigEvent::Basic { base } => Config {
            basic: Basic {
                auto_start: config.basic.auto_start,
                silent_start: base.silent_start,
                auto_check_update: base.auto_check_update,
                language: base.language,
            },
            ..config
        },
        ConfigEvent::System { sys } => Config { system: sys, ..config },
        ConfigEvent::Interface { interface } => Config { interface, ..config },
        ConfigEvent::Storage { stroage } => Config {
            storage: Storage {
                meta_save_path: if same_meta_place {
                    config.storage.meta_save_path
                } else {
                    stroage.meta_save_path
                },
                backup_save_path: if same_backup_place {
                    config.storage.backup_save_path
                } else {
                    stroage.backup_save_path
                },
                auto_backup: stroage.auto_backup,
            },
            ..config
        },
    }
}

/// What the application has to do after a change was taken in, in order.
pub open spec fn actions_after(
    config: Config,
    event: ConfigEvent,
    same_meta_place: bool,
    same_backup_place: bool,
) -> Seq<ConfigAction> {
    match event {
        ConfigEvent::Basic { base } => seq![ConfigAction::AutoStart(base.auto_start)],
        ConfigEvent::System { sys } => seq![
            ConfigAction::RefreshCompanions,
            ConfigAction::RefreshShortcuts,
        ],
        ConfigEvent::Interface { interface } => Seq::empty(),
        ConfigEvent::Storage { stroage } => (if same_meta_place {
            Seq::empty()
        } else {
            seq![
                ConfigAction::Migrate {
                    from: config.storage.meta_save_path,
                    to: stroage.meta_save_path,
                },
            ]
        }) + (if same_backup_place {
            Seq::empty()
        } else {
            seq![
                ConfigAction::Migrate {
                    from: config.storage.backup_save_path,
                    to: stroage.backup_save_path,
                },
            ]
        }),
    }
}

/// Takes one published change into the configuration, and returns what the
/// application has to do about it, in order. Whether a new path of the
/// storage is the place that is in use already is for the caller to find
/// out on disk.
pub fn listening_step(
    config: &mut Config,
    event: ConfigEvent,
    same_meta_place: bool,
    same_backup_place: bool,
) -> (actions: Vec<ConfigAction>)
    ensures
        *final(config) == after_event(*old(config), event, same_meta_place, same_backup_place),
        actions@ == actions_after(*old(config), event, same_meta_place, same_backup_place),
{
    let mut actions: Vec<ConfigAction> = Vec::new();
    match event {
        ConfigEvent::Basic { base } => {
            actions.push(ConfigAction::AutoStart(base.auto_start));
            enable_slient_start(config, base.silent_start);
            enable_auto_update(config, base.auto_check_update);
            set_language(config, base.language);
        },
        ConfigEvent::System { sys } => {
            actions.push(change_compainion(config, sys.companion));
            actions.push(change_hotkey_activation(config, sys.hotkey_activation));
            change_close_button_action(config, sys.close_button_behavior);
            change_log_level(config, sys.log_level);
            set_concurrent_number(config, sys.download_concurrency);
        },
        ConfigEvent::Interface { interface } => {
            change_interface_mode(config, interface.theme_mode);
            change_interface_color(config, interface.theme_color);
            change_sidebar_mode(config, interface.sidebar_mode);
            change_font_family(config, interface.font_family);
        },
        ConfigEvent::Storage { stroage } => {
            match set_game_meta_data_load_path(config, stroage.meta_save_path, same_meta_place) {
                Some(action) => {
                    actions.push(action);
                },
                None => {},
            }
            match set_backup_path(config, stroage.backup_save_path, same_backup_place) {
                Some(action) => {
                    actions.push(action);
                },
                None => {},
            }
            set_auto_back_up(config, stroage.auto_backup);
        },
    }
    assert(actions@ =~= actions_after(*old(config), event, same_meta_place, same_backup_place));
    actions
}

} // verus!
