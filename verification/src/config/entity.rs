//! The configuration of the application as data.

use crate::message::traits::MessageEvent;
use crate::state::traits::Entity;
use vstd::prelude::*;

verus! {

/// The whole configuration.
#[derive(Debug, PartialEq, Eq)]
pub struct Config {
    pub basic: Basic,
    pub interface: Interface,
    pub system: System,
    pub storage: Storage,
}

/// How the application looks.
#[derive(Debug, PartialEq, Eq)]
pub struct Interface {
    pub theme_mode: ThemeMode,
    pub theme_color: ThemeColor,
    pub sidebar_mode: SideBarMode,
    pub font_family: String,
}

/// Light or dark.
#[derive(Debug, Clone, Copy, PartialEq, Eq, Structural)]
pub enum ThemeMode {
    Daytime,
    Night,
}

/// The colour scheme.
#[derive(Debug, Clone, Copy, PartialEq, Eq, Structural)]
pub enum ThemeColor {
    White,
}

/// How the side bar behaves.
#[derive(Debug, Clone, Copy, PartialEq, Eq, Structural)]
pub enum SideBarMode {
    Trigger,
    NormalFixed,
    ShortFixed,
}

/// How the application starts, and in which language it speaks.
#[derive(Debug, PartialEq, Eq)]
pub struct Basic {
    pub auto_start: bool,
    pub silent_start: bool,
    pub auto_check_update: bool,
    pub language: String,
}

/// Where the application keeps its files. The paths are held as text.
#[derive(Debug, PartialEq, Eq)]
pub struct Storage {
    pub backup_save_path: String,
    pub meta_save_path: String,
    pub auto_backup: bool,
}

/// How the application behaves towards the system.
#[derive(Debug, PartialEq, Eq)]
pub struct System {
    pub companion: bool,
    pub hotkey_activation: bool,
    pub close_button_behavior: String,
    pub log_level: String,
    pub download_concurrency: i64,
}

/// A change of one part of the configuration, as it is published.
#[derive(Debug, PartialEq, Eq)]
pub enum ConfigEvent {
    Basic { base: Basic },
    Storage { stroage: Storage },
    System { sys: System },
    Interface { interface: Interface },
}

impl Default for ThemeMode {
    fn default() -> (r: ThemeMode)
        ensures
            r == ThemeMode::Daytime,
    {
        ThemeMode::Daytime
    }
}

impl Default for ThemeColor {
    fn default() -> (r: ThemeColor)
        ensures
            r == ThemeColor::White,
    {
        ThemeColor::White
    }
}

impl Default for SideBarMode {
    fn default() -> (r: SideBarMode)
        ensures
            r == SideBarMode::Trigger,
    {
        SideBarMode::Trigger
    }
}

impl Default for Interface {
    /// Daytime, white, the side bar on a trigger, the system's font.
    fn default() -> (r: Interface)
        ensures
            r.theme_mode == ThemeMode::Daytime,
            r.theme_color == ThemeColor::White,
            r.sidebar_mode == SideBarMode::Trigger,
            r.font_family@ == "sys"@,
    {
        Interface {
            theme_mode: ThemeMode::Daytime,
            theme_color: ThemeColor::White,
            sidebar_mode: SideBarMode::Trigger,
            font_family: "sys".to_owned(),
        }
    }
}

impl Default for Basic {
    /// Nothing starts or updates by itself; the language is Chinese.
    fn default() -> (r: Basic)
        ensures
            !r.auto_start,
            !r.silent_start,
            !r.auto_check_update,
            r.language@ == "zh"@,
    {
        Basic {
            auto_start: false,
            silent_start: false,
            auto_check_update: false,
            language: "zh".to_owned(),
        }
    }
}

impl Default for Storage {
    /// No path, no backup by itself.
    fn default() -> (r: Storage)
        ensures
            r.backup_save_path@ == Seq::<char>::empty(),
            r.meta_save_path@ == Seq::<char>::empty(),
            !r.auto_backup,
    {
        Storage {
            backup_save_path: String::new(),
            meta_save_path: String::new(),
            auto_backup: false,
        }
    }
}

impl Default for System {
    /// Companions and hot keys are on, the close button exits, the log
    /// level is `info`, and five downloads run at a time.
    fn default() -> (r: System)
        ensures
            r.companion,
            r.hotkey_activation,
            r.close_button_behavior@ == "Exit"@,
            r.log_level@ == "info"@,
            r.download_concurrency == 5,
    {
        System {
            companion: true,
            hotkey_activation: true,
            close_button_behavior: "Exit".to_owned(),
            log_level: "info".to_owned(),
            download_concurrency: 5,
        }
    }
}

impl Default for Config {
    /// Every part at its default.
    fn default() -> (r: Config)
        ensures
            r.basic.language@ == "zh"@,
            !r.basic.auto_start,
            !r.basic.silent_start,
            !r.basic.auto_check_update,
            r.interface.theme_mode == ThemeMode::Daytime,
            r.interface.theme_color == ThemeColor::White,
            r.interface.sidebar_mode == SideBarMode::Trigger,
            r.interface.font_family@ == "sys"@,
            r.system.companion,
            r.system.hotkey_activation,
            r.system.close_button_behavior@ == "Exit"@,
            r.system.log_level@ == "info"@,
            r.system.download_concurrency == 5,
            r.storage.backup_save_path@ == Seq::<char>::empty(),
            r.storage.meta_save_path@ == Seq::<char>::empty(),
            !r.storage.auto_backup,
    {
        Config {
            basic: Basic::default(),
            interface: Interface::default(),
            system: System::default(),
            storage: Storage::default(),
        }
    }
}

impl Entity for Config {

}

impl MessageEvent for ConfigEvent {

}

} // verus!
