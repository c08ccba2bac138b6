use custom_theme::cmd::{begins_with_http, get_archive_list, update_config, update_game, ArchiveFormat};
use custom_theme::companion::commands::refresh_companions;
use custom_theme::companion::entity::ActiveProcess;
use custom_theme::config::entity::{
    Basic, Config, ConfigEvent, Interface, SideBarMode, Storage, System, ThemeColor, ThemeMode,
};
use custom_theme::config::serve::{
    change_close_button_action, change_compainion, change_font_family, change_hotkey_activation,
    change_interface_color, change_interface_mode, change_log_level, change_sidebar_mode,
    enable_auto_update, enable_slient_start, listening_step, set_auto_back_up, set_backup_path,
    set_concurrent_number, set_game_meta_data_load_path, set_language, ConfigAction,
};
use custom_theme::game::entity::{ResourceTarget, RunningGameStatus};
use custom_theme::shortcut::commands::{
    boss_key, handle_shortcut_action, refresh_shortcuts, BossKeyPlan, ShortcutAction,
};
use custom_theme::shortcut::entity::ShortcutSetting;

fn configured() -> Config {
    let mut c = Config::default();
    c.storage.backup_save_path = "/data/backup".to_string();
    c.storage.meta_save_path = "/data/assets".to_string();
    c
}

#[test]
fn each_setter_writes_its_field_only() {
    let mut c = configured();
    enable_slient_start(&mut c, true);
    enable_auto_update(&mut c, true);
    set_language(&mut c, "en".to_string());
    let mut want = configured();
    want.basic = Basic {
        auto_start: false,
        silent_start: true,
        auto_check_update: true,
        language: "en".to_string(),
    };
    assert_eq!(c, want);

    assert_eq!(change_compainion(&mut c, false), ConfigAction::RefreshCompanions);
    assert_eq!(change_hotkey_activation(&mut c, false), ConfigAction::RefreshShortcuts);
    change_close_button_action(&mut c, "Hide".to_string());
    change_log_level(&mut c, "debug".to_string());
    set_concurrent_number(&mut c, 9);
    want.system = System {
        companion: false,
        hotkey_activation: false,
        close_button_behavior: "Hide".to_string(),
        log_level: "debug".to_string(),
        download_concurrency: 9,
    };
    assert_eq!(c, want);

    change_interface_mode(&mut c, ThemeMode::Night);
    change_interface_color(&mut c, ThemeColor::White);
    change_sidebar_mode(&mut c, SideBarMode::ShortFixed);
    change_font_family(&mut c, "mono".to_string());
    want.interface = Interface {
        theme_mode: ThemeMode::Night,
        theme_color: ThemeColor::White,
        sidebar_mode: SideBarMode::ShortFixed,
        font_family: "mono".to_string(),
    };
    assert_eq!(c, want);

    set_auto_back_up(&mut c, true);
    want.storage.auto_backup = true;
    assert_eq!(c, want);
}

#[test]
fn a_new_path_moves_the_files() {
    let mut c = configured();
    assert_eq!(set_backup_path(&mut c, "/other".to_string(), true), None);
    assert_eq!(c, configured());
    assert_eq!(
        set_backup_path(&mut c, "/new/backup".to_string(), false),
        Some(ConfigAction::Migrate {
            from: "/data/backup".to_string(),
            to: "/new/backup".to_string()
        })
    );
    assert_eq!(c.storage.backup_save_path, "/new/backup");
    assert_eq!(c.storage.meta_save_path, "/data/assets");
    assert_eq!(set_game_meta_data_load_path(&mut c, "/x".to_string(), true), None);
    assert_eq!(
        set_game_meta_data_load_path(&mut c, "/new/assets".to_string(), false),
        Some(ConfigAction::Migrate {
            from: "/data/assets".to_string(),
            to: "/new/assets".to_string()
        })
    );
    assert_eq!(c.storage.meta_save_path, "/new/assets");
    assert_eq!(c.storage.backup_save_path, "/new/backup");
}

#[test]
fn a_change_of_the_basic_settings_is_taken_in() {
    let mut c = configured();
    let actions = listening_step(
        &mut c,
        ConfigEvent::Basic {
            base: Basic {
                auto_start: true,
                silent_start: true,
                auto_check_update: false,
                language: "ja".to_string(),
            },
        },
        false,
        false,
    );
    assert_eq!(actions, vec![ConfigAction::AutoStart(true)]);
    let mut want = configured();
    want.basic.silent_start = true;
    want.basic.language = "ja".to_string();
    assert_eq!(c, want);
    assert!(!c.basic.auto_start);
}

#[test]
fn changes_of_system_and_interface_are_taken_in() {
    let mut c = configured();
    let sys = System {
        companion: false,
        hotkey_activation: true,
        close_button_behavior: "Tray".to_string(),
        log_level: "warn".to_string(),
        download_concurrency: 2,
    };
    let actions = listening_step(
        &mut c,
        ConfigEvent::System {
            sys: System {
                companion: false,
                hotkey_activation: true,
                close_button_behavior: "Tray".to_string(),
                log_level: "warn".to_string(),
                download_concurrency: 2,
            },
        },
        true,
        true,
    );
    assert_eq!(
        actions,
        vec![ConfigAction::RefreshCompanions, ConfigAction::RefreshShortcuts]
    );
    assert_eq!(c.system, sys);
    assert_eq!(c.basic, configured().basic);
    let actions = listening_step(
        &mut c,
        ConfigEvent::Interface {
            interface: Interface {
                theme_mode: ThemeMode::Night,
                theme_color: ThemeColor::White,
                sidebar_mode: SideBarMode::NormalFixed,
                font_family: "serif".to_string(),
            },
        },
        false,
        false,
    );
    assert_eq!(actions, vec![]);
    assert_eq!(c.interface.theme_mode, ThemeMode::Night);
    assert_eq!(c.interface.sidebar_mode, SideBarMode::NormalFixed);
    assert_eq!(c.interface.font_family, "serif");
    assert_eq!(c.system, sys);
}

#[test]
fn a_change_of_the_storage_is_taken_in() {
    let event = || ConfigEvent::Storage {
        stroage: Storage {
            backup_save_path: "/b2".to_string(),
            meta_save_path: "/m2".to_string(),
            auto_backup: true,
        },
    };
    let mut c = configured();
    assert_eq!(
        listening_step(&mut c, event(), false, false),
        vec![
            ConfigAction::Migrate { from: "/data/assets".to_string(), to: "/m2".to_string() },
            ConfigAction::Migrate { from: "/data/backup".to_string(), to: "/b2".to_string() },
        ]
    );
    assert_eq!(
        c.storage,
        Storage {
            backup_save_path: "/b2".to_string(),
            meta_save_path: "/m2".to_string(),
            auto_backup: true
        }
    );
    let mut c = configured();
    assert_eq!(
        listening_step(&mut c, event(), true, false),
        vec![ConfigAction::Migrate { from: "/data/backup".to_string(), to: "/b2".to_string() }]
    );
    assert_eq!(c.storage.meta_save_path, "/data/assets");
    assert_eq!(c.storage.backup_save_path, "/b2");
    let mut c = configured();
    assert_eq!(listening_step(&mut c, event(), true, true), vec![]);
    assert_eq!(c.storage.meta_save_path, "/data/assets");
    assert_eq!(c.storage.backup_save_path, "/data/backup");
    assert!(c.storage.auto_backup);
}

#[test]
fn what_a_shortcut_sets_off() {
    assert_eq!(handle_shortcut_action("launch_last"), ShortcutAction::LaunchLast);
    assert_eq!(handle_shortcut_action("boss_key"), ShortcutAction::BossKey);
    assert_eq!(handle_shortcut_action("emergency_stop"), ShortcutAction::EmergencyStop);
    assert_eq!(handle_shortcut_action("screenshot"), ShortcutAction::Screenshot);
    assert_eq!(handle_shortcut_action("Boss_Key"), ShortcutAction::Unknown);
    assert_eq!(handle_shortcut_action(""), ShortcutAction::Unknown);
}

#[test]
fn the_boss_key_takes_games_and_managed_companions_along() {
    let games = vec![RunningGameStatus { game_pid: 7 }, RunningGameStatus { game_pid: 8 }];
    let companions = vec![
        ActiveProcess { pid: 20, is_window_managed: false },
        ActiveProcess { pid: 21, is_window_managed: true },
    ];
    assert_eq!(
        boss_key(true, &games, &companions),
        BossKeyPlan { visible: false, pids: vec![7, 8, 21] }
    );
    assert_eq!(
        boss_key(false, &vec![], &companions),
        BossKeyPlan { visible: true, pids: vec![21] }
    );
    assert_eq!(
        boss_key(false, &vec![], &vec![]),
        BossKeyPlan { visible: true, pids: vec![] }
    );
}

#[test]
fn the_shortcuts_that_are_listened_for() {
    let setting = |id: &str, keys: Option<&str>, is_global: bool| ShortcutSetting {
        id: id.to_string(),
        key_combo: keys.map(|k| k.to_string()),
        is_global,
    };
    let settings = vec![
        setting("boss_key", Some("Ctrl+B"), true),
        setting("screenshot", None, true),
        setting("launch_last", Some("Ctrl+L"), false),
        setting("emergency_stop", Some("Ctrl+E"), true),
    ];
    assert_eq!(refresh_shortcuts(&settings, true), vec![0, 3]);
    assert_eq!(refresh_shortcuts(&settings, false), Vec::<usize>::new());
    assert_eq!(refresh_shortcuts(&vec![], true), Vec::<usize>::new());
}

#[test]
fn companions_start_again_only_on_start_up() {
    assert!(refresh_companions(true, true));
    assert!(!refresh_companions(true, false));
    assert!(!refresh_companions(false, true));
    assert!(!refresh_companions(false, false));
}

#[test]
fn the_parts_that_changed_are_published() {
    let old = configured();
    assert_eq!(update_config(&old, configured()), vec![]);
    let mut new = configured();
    new.basic.language = "en".to_string();
    new.system.download_concurrency = 1;
    assert_eq!(
        update_config(&old, new),
        vec![
            ConfigEvent::Basic {
                base: Basic {
                    auto_start: false,
                    silent_start: false,
                    auto_check_update: false,
                    language: "en".to_string()
                }
            },
            ConfigEvent::System {
                sys: System {
                    companion: true,
                    hotkey_activation: true,
                    close_button_behavior: "Exit".to_string(),
                    log_level: "info".to_string(),
                    download_concurrency: 1
                }
            },
        ]
    );
    let mut new = configured();
    new.interface.theme_mode = ThemeMode::Night;
    new.storage.auto_backup = true;
    let events = update_config(&old, new);
    assert_eq!(events.len(), 2);
    assert!(matches!(events[0], ConfigEvent::Interface { .. }));
    assert!(matches!(events[1], ConfigEvent::Storage { .. }));
}

#[test]
fn addresses_on_the_network() {
    assert!(begins_with_http("http://a"));
    assert!(begins_with_http("https://a"));
    assert!(begins_with_http("http"));
    assert!(!begins_with_http("htt"));
    assert!(!begins_with_http("/http"));
    assert!(!begins_with_http(""));
    assert!(!begins_with_http("HTTP://a"));
}

#[test]
fn the_resources_to_fetch_after_a_game_changed() {
    let old = Some(("http://c", "http://b"));
    assert_eq!(update_game(old, "http://c", "http://b", true), None);
    assert_eq!(
        update_game(old, "http://c2", "http://b", true),
        Some(ResourceTarget::CoverOnly)
    );
    assert_eq!(
        update_game(old, "http://c", "http://b2", true),
        Some(ResourceTarget::BackgroundOnly)
    );
    assert_eq!(
        update_game(old, "http://c2", "http://b2", true),
        Some(ResourceTarget::All)
    );
    assert_eq!(update_game(None, "http://c", "/local", true), Some(ResourceTarget::All));
    assert_eq!(update_game(None, "/local", "/local", true), None);
    assert_eq!(update_game(old, "/c2", "/b2", true), None);
    assert_eq!(update_game(old, "/c2", "http://b", true), Some(ResourceTarget::CoverOnly));
    assert_eq!(update_game(old, "http://c2", "http://b2", false), None);
    assert_eq!(update_game(None, "http://c", "http://b", false), None);
}

#[test]
fn archives_by_extension() {
    assert_eq!(get_archive_list("zip"), ArchiveFormat::Zip);
    assert_eq!(get_archive_list("rar"), ArchiveFormat::Rar);
    assert_eq!(get_archive_list("7z"), ArchiveFormat::Unsupported);
    assert_eq!(get_archive_list(""), ArchiveFormat::Unsupported);
    assert_eq!(get_archive_list("ZIP"), ArchiveFormat::Unsupported);
}
