use uad::config::{
    config_file_path, Config, DeviceSettings, FilterSettings, GeneralSettings, DEFAULT_THEME,
};
use uad::lists::{PackageState, Removal, UadList};

fn backups_dir() -> String {
    std::path::Path::new("/tmp/uad-cache")
        .join("backups")
        .to_string_lossy()
        .into_owned()
}

fn default_config() -> Config {
    Config::with_general(GeneralSettings::with_backup_folder(backups_dir()))
}

const CACHE_DIR: &str = "/tmp/uad-cache";
const CONFIG_DIR: &str = "/tmp/uad-config";

#[test]
fn test_default_config() {
    let config = Config::default_in(CACHE_DIR);
    assert_eq!(config.devices.len(), 0);
    assert_eq!(config.general.theme, DEFAULT_THEME);
    assert!(!config.general.expert_mode);
    assert_eq!(
        std::path::Path::new(&config.general.backup_folder),
        std::path::Path::new(CACHE_DIR).join("backups")
    );
}

#[test]
fn test_config_file_path() {
    assert_eq!(
        std::path::Path::new(&config_file_path(CONFIG_DIR)),
        std::path::Path::new(CONFIG_DIR).join("config.toml")
    );
}

#[test]
fn paths_join_with_one_separator() {
    assert_eq!(config_file_path(""), "config.toml");
    assert_eq!(config_file_path("/etc/uad/"), "/etc/uad/config.toml");
    assert_eq!(config_file_path("/etc/uad"), "/etc/uad/config.toml");
    assert_eq!(
        GeneralSettings::default_in("/var/cache/uad").backup_folder,
        "/var/cache/uad/backups"
    );
}

#[test]
fn default_config_has_default_filters_and_no_last_device() {
    let config = default_config();
    assert_eq!(config.last_device_id, None);
    assert_eq!(config.filters.list, UadList::All);
    assert_eq!(config.filters.state, PackageState::Enabled);
    assert_eq!(config.filters.removal, Removal::Recommended);
    assert!(!config.filters.user_apps_only);
    assert_eq!(config.filters(), FilterSettings::default());
}

#[test]
fn load_restores_default_when_unreadable() {
    let (config, restore) = Config::load_configuration_file(None, CACHE_DIR);
    assert!(restore);
    assert_eq!(config.general.theme, DEFAULT_THEME);
    assert_eq!(config.general.backup_folder, "/tmp/uad-cache/backups");
    assert_eq!(config.devices.len(), 0);

    let mut saved = default_config();
    saved.last_device_id = Some("X".to_string());
    let (loaded, restore) = Config::load_configuration_file(Some(saved), CACHE_DIR);
    assert!(!restore);
    assert_eq!(loaded.last_device_id.as_deref(), Some("X"));
}

#[test]
fn last_device_round_trip() {
    let mut config = default_config();
    assert_eq!(config.last_device_id(), None);
    assert!(config.save_last_device("ABC123SERIAL"));
    assert_eq!(config.last_device_id().as_deref(), Some("ABC123SERIAL"));
    // Already current: nothing changes, nothing to write.
    assert!(!config.save_last_device("ABC123SERIAL"));
    assert!(config.save_last_device("OTHER"));
    assert_eq!(config.last_device_id().as_deref(), Some("OTHER"));
}

#[test]
fn filters_round_trip_in_memory() {
    let mut config = default_config();
    let filters = FilterSettings {
        list: UadList::Google,
        state: PackageState::All,
        removal: Removal::Advanced,
        user_apps_only: true,
    };
    assert!(config.save_filters(&filters));
    assert_eq!(config.filters(), filters);
    assert!(!config.save_filters(&filters));
    // Nothing else moved.
    assert_eq!(config.last_device_id, None);
    assert_eq!(config.general.theme, DEFAULT_THEME);
}

fn device(id: &str, disable_mode: bool) -> DeviceSettings {
    DeviceSettings {
        device_id: id.to_string(),
        disable_mode,
        ..DeviceSettings::default()
    }
}

#[test]
fn device_settings_replace_or_append() {
    let mut config = default_config();
    let mut general = GeneralSettings::with_backup_folder(backups_dir());
    general.expert_mode = true;
    config.save_device_settings(device("A", false), general.clone());
    config.save_device_settings(device("B", false), general.clone());
    assert_eq!(config.devices.len(), 2);
    config.save_device_settings(device("A", true), general.clone());
    assert_eq!(config.devices.len(), 2);
    assert_eq!(config.devices[0].device_id, "A");
    assert!(config.devices[0].disable_mode);
    assert_eq!(config.devices[1].device_id, "B");
    assert!(!config.devices[1].disable_mode);
    assert!(config.general.expert_mode);
}

#[test]
fn default_device_settings_are_empty() {
    let d = DeviceSettings::default();
    assert_eq!(d.device_id, "");
    assert!(!d.disable_mode && !d.multi_user_mode);
    assert!(d.backup.backups.is_empty());
    assert!(d.backup.selected.is_none());
    assert!(d.backup.users.is_empty());
    assert_eq!(d.backup.backup_state, "");
}
