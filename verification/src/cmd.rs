//! The decisions behind the commands of the front end.

use crate::config::entity::{Basic, Config, ConfigEvent, Interface, Storage, System};
use crate::game::entity::ResourceTarget;
use crate::text::{chars_of, matches_at, occurs_at};
use vstd::prelude::*;

verus! {

/// Whether two basic settings say the same.
pub open spec fn same_basic(a: Basic, b: Basic) -> bool {
    &&& a.auto_start == b.auto_start
    &&& a.silent_start == b.silent_start
    &&& a.auto_check_update == b.auto_check_update
    &&& a.language@ == b.language@
}

/// Whether two settings of the interface say the same.
pub open spec fn same_interface(a: Interface, b: Interface) -> bool {
    &&& a.theme_mode == b.theme_mode
    &&& a.theme_color == b.theme_color
    &&& a.sidebar_mode == b.sidebar_mode
    &&& a.font_family@ == b.font_family@
}

/// Whether two settings of the storage say the same.
pub open spec fn same_storage(a: Storage, b: Storage) -> bool {
    &&& a.backup_save_path@ == b.backup_save_path@
    &&& a.meta_save_path@ == b.meta_save_path@
    &&& a.auto_backup == b.auto_backup
}

/// Whether two settings of the system say the same.
pub open spec fn same_system(a: System, b: System) -> bool {
    &&& a.companion == b.companion
    &&& a.hotkey_activation == b.hotkey_activation
    &&& a.close_button_behavior@ == b.close_button_behavior@
    &&& a.log_level@ == b.log_level@
    &&& a.download_concurrency == b.download_concurrency
}

fn basic_eq(a: &Basic, b: &Basic) -> (r: bool)
    ensures
        r == same_basic(*a, *b),
{
    a.auto_start == b.auto_start && a.silent_start == b.silent_start && a.auto_check_update
        == b.auto_check_update && a.language == b.language
}

fn interface_eq(a: &Interface, b: &Interface) -> (r: bool)
    ensures
        r == same_interface(*a, *b),
{
    a.theme_mode == b.theme_mode && a.theme_color == b.theme_color && a.sidebar_mode
        == b.sidebar_mode && a.font_family == b.font_family
}

fn storage_eq(a: &Storage, b: &Storage) -> (r: bool)
    ensures
        r == same_storage(*a, *b),
{
    a.backup_save_path == b.backup_save_path && a.meta_save_path == b.meta_save_path
        && a.auto_backup == b.auto_backup
}

fn system_eq(a: &System, b: &System) -> (r: bool)
    ensures
        r == same_system(*a, *b),
{
    a.companion == b.companion && a.hotkey_activation == b.hotkey_activation
        && a.close_button_behavior == b.close_button_behavior && a.log_level == b.log_level
        && a.download_concurrency == b.download_concurrency
}

/// The changes to publish when the front end hands in a whole
/// configuration: one for each part that differs from the part in use, in
/// the order basic, interface, storage, system.
pub open spec fn changes(old_config: Config, config: Config) -> Seq<ConfigEvent> {
    (if same_basic(old_config.basic, config.basic) {
        Seq::empty()
    } else {
        seq![ConfigEvent::Basic { base: config.basic }]
    }) + (if same_interface(old_config.interface, config.interface) {
        Seq::empty()
    } else {
        seq![ConfigEvent::Interface { interface: config.interface }]
    }) + (if same_storage(old_config.storage, config.storage) {
        Seq::empty()
    } else {
        seq![ConfigEvent::Storage { stroage: config.storage }]
    }) + (if same_system(old_config.system, config.system) {
        Seq::empty()
    } else {
        seq![ConfigEvent::System { sys: config.system }]
    })
}

/// The changes to publish when the front end hands in a whole
/// configuration: see `changes`. The configuration in use is only read;
/// the changes reach it when they are taken in.
pub fn update_config(old_config: &Config, config: Config) -> (events: Vec<ConfigEvent>)
    ensures
        events@ == changes(*old_config, config),
{
    let mut events: Vec<ConfigEvent> = Vec::new();
    if !basic_eq(&old_config.basic, &config.basic) {
        events.push(ConfigEvent::Basic { base: config.basic });
    }
    if !interface_eq(&old_config.interface, &config.interface) {
        events.push(ConfigEvent::Interface { interface: config.interface });
    }
    if !storage_eq(&old_config.storage, &config.storage) {
        events.push(ConfigEvent::Storage { stroage: config.storage });
    }
    if !system_eq(&old_config.system, &config.system) {
        events.push(ConfigEvent::System { sys: config.system });
    }
    assert(events@ =~= changes(*old_config, config));
    events
}

/// Whether a text is an address on the network, as far as the commands
/// look: whether it begins with `http`.
pub open spec fn is_remote(address: Seq<char>) -> bool {
    occurs_at(address, 0, "http"@)
}

/// Whether a text begins with `http`.
pub fn begins_with_http(address: &str) -> (r: bool)
    ensures
        r == is_remote(address@),
{
    let text = chars_of(address);
    let head = chars_of("http");
    matches_at(&text, 0, &head)
}

/// The resources of a game that have to be fetched again after its data
/// changed: those whose address changed; all of them for a game that was
/// not known.
pub open spec fn changed_resources(
    known: Option<(Seq<char>, Seq<char>)>,
    cover: Seq<char>,
    background: Seq<char>,
) -> Option<ResourceTarget> {
    match known {
        Some((old_cover, old_background)) => if old_cover != cover && old_background
            != background {
            Some(ResourceTarget::All)
        } else if old_cover != cover {
            Some(ResourceTarget::CoverOnly)
        } else if old_background != background {
            Some(ResourceTarget::BackgroundOnly)
        } else {
            None
        },
        None => Some(ResourceTarget::All),
    }
}

/// The resources to have fetched after the data of a game changed, if any:
/// those that `changed_resources` names, where downloading is allowed and
/// the cover or the background is an address on the network. `known` holds
/// the addresses of cover and background as they were, for a game that was
/// known.
pub fn update_game(
    known: Option<(&str, &str)>,
    cover: &str,
    background: &str,
    allow_downloading: bool,
) -> (target: Option<ResourceTarget>)
    ensures
        target == if allow_downloading && (is_remote(cover@) || is_remote(background@)) {
            changed_resources(
                match known {
                    Some((old_cover, old_background)) => Some((old_cover@, old_background@)),
                    None => None,
                },
                cover@,
                background@,
            )
        } else {
            None
        },
{
    let resource_target = match known {
        Some((old_cover, old_background)) => {
            let cover_changed = old_cover.to_owned() != cover.to_owned();
            let bg_changed = old_background.to_owned() != background.to_owned();
            if cover_changed && bg_changed {
                Some(ResourceTarget::All)
            } else if cover_changed {
                Some(ResourceTarget::CoverOnly)
            } else if bg_changed {
                Some(ResourceTarget::BackgroundOnly)
            } else {
                None
            }
        },
        None => Some(ResourceTarget::All),
    };
    if !allow_downloading {
        return None;
    }
    if begins_with_http(cover) || begins_with_http(background) {
        resource_target
    } else {
        None
    }
}

/// How an archive is packed.
#[derive(Debug, Clone, Copy, PartialEq, Eq, Structural)]
pub enum ArchiveFormat {
    Zip,
    Rar,
    Unsupported,
}

/// How an archive is packed, by the extension of its file in lower case.
pub fn get_archive_list(extension: &str) -> (format: ArchiveFormat)
    ensures
        format == if extension@ == "zip"@ {
            ArchiveFormat::Zip
        } else if extension@ == "rar"@ {
            ArchiveFormat::Rar
        } else {
            ArchiveFormat::Unsupported
        },
{
    let given: String = extension.to_owned();
    if given == "zip".to_owned() {
        ArchiveFormat::Zip
    } else if given == "rar".to_owned() {
        ArchiveFormat::Rar
    } else {
        ArchiveFormat::Unsupported
    }
}

} // verus!
