//! The persisted configuration: general settings, per-device settings, the
//! remembered apps-view filters and the last selected device. Reading and
//! writing the file is the caller's; this module decides what the
//! configuration becomes and whether it needs writing.
use vstd::prelude::*;
use crate::lists::{PackageState, Removal, UadList};

verus! {

/// The theme of a fresh configuration.
pub const DEFAULT_THEME: &'static str = "Auto (follow system theme)";

/// The name of the configuration file inside the configuration directory.
pub const CONFIG_FILE_NAME: &'static str = "config.toml";

/// The name of the backup directory inside the cache directory.
pub const BACKUP_DIR_NAME: &'static str = "backups";

/// `name` is a single relative path component: not empty, no separator, no
/// drive prefix, and neither `.` nor `..`.
pub open spec fn is_plain_name(name: Seq<char>) -> bool {
    &&& name.len() > 0
    &&& !name.contains('/')
    &&& !name.contains('\\')
    &&& !name.contains(':')
    &&& name != seq!['.']
    &&& name != seq!['.', '.']
}

/// A path separator on some platform.
pub open spec fn is_path_separator(c: char) -> bool {
    c == '/' || c == '\\'
}

/// `dir` may start with a Windows verbatim prefix (`\\?\`), under which
/// joining rebuilds the directory's components.
pub open spec fn may_be_verbatim(dir: Seq<char>) -> bool {
    dir.len() >= 4 && is_path_separator(dir[0]) && is_path_separator(dir[1]) && dir[2] == '?'
        && is_path_separator(dir[3])
}

/// `r` is `dir` joined with `name`: just the name for an empty directory;
/// the directory then the name when the directory already ends with `/`; the
/// directory, one separator (`/` or `\`, by platform) and the name when it
/// ends in any character other than `\` or `:`; and in the remaining cases
/// (a directory ending in `\` or `:`, which is a separator or a bare drive on
/// Windows only), the directory, nothing or one separator, then the name.
pub open spec fn is_joined(r: Seq<char>, dir: Seq<char>, name: Seq<char>) -> bool {
    &&& {
        ||| r == dir + name
        ||| r == dir + seq!['/'] + name
        ||| r == dir + seq!['\\'] + name
    }
    &&& dir.len() == 0 ==> r == name
    &&& dir.len() > 0 && dir.last() == '/' ==> r == dir + name
    &&& dir.len() > 0 && dir.last() != '/' && dir.last() != '\\' && dir.last() != ':' ==> {
        ||| r == dir + seq!['/'] + name
        ||| r == dir + seq!['\\'] + name
    }
}

/// Whether `s` ends with `p`.
pub open spec fn has_suffix(s: Seq<char>, p: Seq<char>) -> bool {
    p.len() <= s.len() && s.skip(s.len() - p.len()) == p
}

/// Wraps `Path::join` of a directory and a single relative name (through
/// `PathBuf::push`): the directory, the platform's separator unless the
/// directory is empty or already ends with one (or, on Windows, is a bare
/// drive such as `C:`), then the name (see [`is_joined`]). Which separator is
/// used, and whether a directory ending in `\` or `:` gets one, is left
/// unsaid: it depends on the platform. Under a Windows verbatim prefix the
/// directory is rebuilt from its components, so then only the name's place at
/// the end is stated.
#[verifier::external_body]
fn join_path(dir: &str, name: &str) -> (r: String)
    requires
        is_plain_name(name@),
    ensures
        !may_be_verbatim(dir@) ==> is_joined(r@, dir@, name@),
        has_suffix(r@, name@),
{
    std::path::Path::new(dir).join(name).to_string_lossy().into_owned()
}

/// The path of the configuration file in the configuration directory.
/// Under a Windows verbatim prefix the directory part is left unsaid.
pub fn config_file_path(config_dir: &str) -> (r: String)
    ensures
        !may_be_verbatim(config_dir@) ==> is_joined(r@, config_dir@, CONFIG_FILE_NAME@),
        has_suffix(r@, CONFIG_FILE_NAME@),
{
    proof {
        reveal_strlit("config.toml");
        assert(CONFIG_FILE_NAME@.len() == 11);
        assert(CONFIG_FILE_NAME@ != seq!['.']);
        assert(CONFIG_FILE_NAME@ != seq!['.', '.']);
    }
    join_path(config_dir, CONFIG_FILE_NAME)
}

/// Package-list filters, remembered across launches so the app reopens on the
/// view the user left it in. The search box is intentionally not remembered.
#[derive(Clone, Copy, Debug, PartialEq, Eq, Structural)]
pub struct FilterSettings {
    pub list: UadList,
    pub state: PackageState,
    pub removal: Removal,
    pub user_apps_only: bool,
}

impl Default for FilterSettings {
    /// All lists, enabled packages, recommended removals, system apps included:
    /// the view a configuration without remembered filters opens on.
    fn default() -> (r: Self)
        ensures
            r == (FilterSettings {
                list: UadList::All,
                state: PackageState::Enabled,
                removal: Removal::Recommended,
                user_apps_only: false,
            }),
    {
        FilterSettings {
            list: UadList::All,
            state: PackageState::Enabled,
            removal: Removal::Recommended,
            user_apps_only: false,
        }
    }
}

/// Settings shared by all devices.
#[derive(Clone, Debug)]
pub struct GeneralSettings {
    pub theme: String,
    pub expert_mode: bool,
    /// Where backups are written.
    pub backup_folder: String,
}

/// The abstract value of [`GeneralSettings`].
pub struct GeneralSettingsView {
    pub theme: Seq<char>,
    pub expert_mode: bool,
    pub backup_folder: Seq<char>,
}

impl View for GeneralSettings {
    type V = GeneralSettingsView;

    open spec fn view(&self) -> GeneralSettingsView {
        GeneralSettingsView {
            theme: self.theme@,
            expert_mode: self.expert_mode,
            backup_folder: self.backup_folder@,
        }
    }
}

/// A user profile on a device.
#[derive(Clone, Copy, Debug, PartialEq, Eq, Structural)]
pub struct User {
    pub id: u16,
    pub index: usize,
    pub protected: bool,
}

/// A backup file, by its path.
#[derive(Clone, Debug)]
pub struct DisplayablePath {
    pub path: String,
}

/// The backup state of a device, kept in memory only.
#[derive(Clone, Debug)]
pub struct BackupSettings {
    pub backups: Vec<DisplayablePath>,
    pub selected: Option<DisplayablePath>,
    pub users: Vec<User>,
    pub selected_user: Option<User>,
    pub backup_state: String,
}

/// The abstract value of [`BackupSettings`].
pub struct BackupSettingsView {
    pub backups: Seq<Seq<char>>,
    pub selected: Option<Seq<char>>,
    pub users: Seq<User>,
    pub selected_user: Option<User>,
    pub backup_state: Seq<char>,
}

impl View for BackupSettings {
    type V = BackupSettingsView;

    open spec fn view(&self) -> BackupSettingsView {
        BackupSettingsView {
            backups: self.backups@.map_values(|p: DisplayablePath| p.path@),
            selected: match self.selected {
                Some(p) => Some(p.path@),
                None => None,
            },
            users: self.users@,
            selected_user: self.selected_user,
            backup_state: self.backup_state@,
        }
    }
}

impl Default for BackupSettings {
    /// No backups, no users, nothing selected.
    fn default() -> (r: Self)
        ensures
            r@ == (BackupSettingsView {
                backups: seq![],
                selected: None,
                users: seq![],
                selected_user: None,
                backup_state: seq![],
            }),
    {
        let r = BackupSettings {
            backups: Vec::new(),
            selected: None,
            users: Vec::new(),
            selected_user: None,
            backup_state: String::new(),
        };
        assert(r@.backups =~= seq![]);
        r
    }
}

/// Settings of one device, keyed by its serial.
#[derive(Clone, Debug)]
pub struct DeviceSettings {
    /// Unique serial identifier
    pub device_id: String,
    pub disable_mode: bool,
    pub multi_user_mode: bool,
    pub backup: BackupSettings,
}

/// The abstract value of [`DeviceSettings`].
pub struct DeviceSettingsView {
    pub device_id: Seq<char>,
    pub disable_mode: bool,
    pub multi_user_mode: bool,
    pub backup: BackupSettingsView,
}

impl View for DeviceSettings {
    type V = DeviceSettingsView;

    open spec fn view(&self) -> DeviceSettingsView {
        DeviceSettingsView {
            device_id: self.device_id@,
            disable_mode: self.disable_mode,
            multi_user_mode: self.multi_user_mode,
            backup: self.backup@,
        }
    }
}

impl Default for DeviceSettings {
    /// A device with an empty serial, both modes off, and no backups.
    fn default() -> (r: Self)
        ensures
            r@.device_id == Seq::<char>::empty(),
            !r.disable_mode,
            !r.multi_user_mode,
            r@.backup == (BackupSettingsView {
                backups: seq![],
                selected: None,
                users: seq![],
                selected_user: None,
                backup_state: seq![],
            }),
    {
        DeviceSettings {
            device_id: String::new(),
            disable_mode: false,
            multi_user_mode: false,
            backup: BackupSettings::default(),
        }
    }
}

/// The whole configuration.
#[derive(Clone, Debug)]
pub struct Config {
    /// Serial (`adb_id`) of the most recently selected device, re-selected on
    /// the next launch.
    pub last_device_id: Option<String>,
    pub general: GeneralSettings,
    pub filters: FilterSettings,
    pub devices: Vec<DeviceSettings>,
}

/// The abstract value of [`Config`].
pub struct ConfigView {
    pub last_device_id: Option<Seq<char>>,
    pub general: GeneralSettingsView,
    pub filters: FilterSettings,
    pub devices: Seq<DeviceSettingsView>,
}

/// The view of an optional string.
pub open spec fn opt_string_view(o: Option<String>) -> Option<Seq<char>> {
    match o {
        Some(s) => Some(s@),
        None => None,
    }
}

impl View for Config {
    type V = ConfigView;

    open spec fn view(&self) -> ConfigView {
        ConfigView {
            last_device_id: opt_string_view(self.last_device_id),
            general: self.general@,
            filters: self.filters,
            devices: self.devices@.map_values(|d: DeviceSettings| d@),
        }
    }
}

/// `i` is the first position of a device with serial `id`.
pub open spec fn is_first_device(devices: Seq<DeviceSettingsView>, id: Seq<char>, i: int) -> bool {
    &&& 0 <= i < devices.len()
    &&& devices[i].device_id == id
    &&& forall|j: int| 0 <= j < i ==> devices[j].device_id != id
}

/// The position of the first device with serial `id`, if there is one.
pub open spec fn device_position(devices: Seq<DeviceSettingsView>, id: Seq<char>) -> Option<int> {
    if exists|i: int| is_first_device(devices, id, i) {
        Some(choose|i: int| is_first_device(devices, id, i))
    } else {
        None
    }
}

/// General settings of a fresh configuration, backing up into `backup_folder`.
pub open spec fn default_general(backup_folder: Seq<char>) -> GeneralSettingsView {
    GeneralSettingsView { theme: DEFAULT_THEME@, expert_mode: false, backup_folder }
}

/// `g` is the default general settings for the cache directory: the default
/// theme, expert mode off, backups in the cache directory's `backups` (under
/// a Windows verbatim prefix, only that the path ends in `backups`).
pub open spec fn is_default_general(g: GeneralSettingsView, cache_dir: Seq<char>) -> bool {
    &&& g.theme == DEFAULT_THEME@
    &&& !g.expert_mode
    &&& !may_be_verbatim(cache_dir) ==> is_joined(g.backup_folder, cache_dir, BACKUP_DIR_NAME@)
    &&& has_suffix(g.backup_folder, BACKUP_DIR_NAME@)
}

/// `c` is a default configuration for the cache directory.
pub open spec fn is_default_config(c: ConfigView, cache_dir: Seq<char>) -> bool {
    c == ConfigView::fresh(c.general) && is_default_general(c.general, cache_dir)
}

impl ConfigView {
    /// A fresh configuration: no last device, default filters, no devices.
    pub open spec fn fresh(general: GeneralSettingsView) -> ConfigView {
        ConfigView {
            last_device_id: None,
            general,
            filters: FilterSettings {
                list: UadList::All,
                state: PackageState::Enabled,
                removal: Removal::Recommended,
                user_apps_only: false,
            },
            devices: seq![],
        }
    }

    /// The configuration with device `d`'s settings recorded (replacing the
    /// first entry with the same serial, else appended) and `g` as general settings.
    pub open spec fn with_device_settings(self, d: DeviceSettingsView, g: GeneralSettingsView) -> ConfigView {
        ConfigView {
            general: g,
            devices: match device_position(self.devices, d.device_id) {
                Some(i) => self.devices.update(i, d),
                None => self.devices.push(d),
            },
            ..self
        }
    }

    /// The configuration with `id` as the last selected device.
    pub open spec fn with_last_device(self, id: Seq<char>) -> ConfigView {
        ConfigView { last_device_id: Some(id), ..self }
    }

    /// The configuration with `f` as the remembered filters.
    pub open spec fn with_filters(self, f: FilterSettings) -> ConfigView {
        ConfigView { filters: f, ..self }
    }
}

impl GeneralSettings {
    /// Default general settings (default theme, expert mode off) backing up
    /// into `backup_folder`.
    pub fn with_backup_folder(backup_folder: String) -> (r: Self)
        ensures
            r@ == default_general(backup_folder@),
    {
        GeneralSettings {
            theme: String::from_str(DEFAULT_THEME),
            expert_mode: false,
            backup_folder,
        }
    }
}

impl GeneralSettings {
    /// Default general settings backing up into the `backups` directory of
    /// the cache directory.
    pub fn default_in(cache_dir: &str) -> (r: Self)
        ensures
            is_default_general(r@, cache_dir@),
    {
        proof {
            reveal_strlit("backups");
        }
        GeneralSettings::with_backup_folder(join_path(cache_dir, BACKUP_DIR_NAME))
    }
}

impl Config {
    /// A fresh configuration with the given general settings.
    pub fn with_general(general: GeneralSettings) -> (r: Self)
        ensures
            r@ == ConfigView::fresh(general@),
    {
        let r = Config {
            last_device_id: None,
            general,
            filters: FilterSettings::default(),
            devices: Vec::new(),
        };
        assert(r@.devices =~= seq![]);
        r
    }

    /// The default configuration: default general settings backing up into
    /// the cache directory, no last device, default filters, no devices.
    pub fn default_in(cache_dir: &str) -> (r: Self)
        ensures
            is_default_config(r@, cache_dir@),
    {
        Config::with_general(GeneralSettings::default_in(cache_dir))
    }

    /// What the configuration file yields: the parsed configuration when it
    /// could be read and parsed, else the default one, which must then be
    /// written back to restore the file.
    pub fn load_configuration_file(loaded: Option<Config>, cache_dir: &str) -> (r: (Config, bool))
        ensures
            r.1 == (loaded is None),
            match loaded {
                Some(c) => r.0 == c,
                None => is_default_config(r.0@, cache_dir@),
            },
    {
        match loaded {
            Some(c) => (c, false),
            None => (Config::default_in(cache_dir), true),
        }
    }

    /// Records the settings of one device (replacing the entry with the same
    /// serial, else adding one) together with the general settings.
    pub fn save_device_settings(&mut self, device_settings: DeviceSettings, general: GeneralSettings)
        ensures
            final(self)@ == old(self)@.with_device_settings(device_settings@, general@),
    {
        let ghost devs = old(self)@.devices;
        let mut i: usize = 0;
        while i < self.devices.len()
            invariant
                i <= self.devices.len(),
                self@.devices == devs,
                forall|j: int| 0 <= j < i ==> devs[j].device_id != device_settings.device_id@,
            ensures
                i <= self.devices.len(),
                self@.devices == devs,
                forall|j: int| 0 <= j < i ==> devs[j].device_id != device_settings.device_id@,
                i < self.devices.len() ==> devs[i as int].device_id == device_settings.device_id@,
            decreases self.devices.len() - i,
        {
            if self.devices[i].device_id == device_settings.device_id {
                assert(devs[i as int] == self.devices@[i as int]@);
                break;
            }
            i += 1;
        }
        let ghost d = device_settings@;
        if i < self.devices.len() {
            assert(is_first_device(devs, d.device_id, i as int));
            let ghost k = choose|k: int| is_first_device(devs, d.device_id, k);
            assert(k == i as int) by {
                if k < i {
                    assert(devs[k].device_id != d.device_id);
                } else if k > i {
                    assert(devs[i as int].device_id != d.device_id);
                }
            }
            self.devices.set(i, device_settings);
            assert(self@.devices =~= devs.update(i as int, d));
        } else {
            assert(!exists|k: int| is_first_device(devs, d.device_id, k));
            self.devices.push(device_settings);
            assert(self@.devices =~= devs.push(d));
        }
        self.general = general;
    }

    /// Records `device_id` as the most recently selected device. Returns
    /// whether the configuration changed (and so needs writing).
    pub fn save_last_device(&mut self, device_id: &str) -> (changed: bool)
        ensures
            final(self)@ == old(self)@.with_last_device(device_id@),
            changed == (old(self)@.last_device_id != Some(device_id@)),
    {
        let same = match &self.last_device_id {
            Some(current) => crate::text::str_eq(current.as_str(), device_id),
            None => false,
        };
        if same {
            return false;
        }
        self.last_device_id = Some(String::from_str(device_id));
        true
    }

    /// The most recently selected device serial, if any.
    pub fn last_device_id(&self) -> (r: Option<String>)
        ensures
            opt_string_view(r) == self@.last_device_id,
    {
        match &self.last_device_id {
            Some(s) => Some(s.clone()),
            None => None,
        }
    }

    /// Records the apps-view filters. Returns whether they changed (and so the
    /// configuration needs writing).
    pub fn save_filters(&mut self, filters: &FilterSettings) -> (changed: bool)
        ensures
            final(self)@ == old(self)@.with_filters(*filters),
            changed == (old(self).filters != *filters),
    {
        if self.filters == *filters {
            return false;
        }
        self.filters = *filters;
        true
    }

    /// The filters to open the apps view with.
    pub fn filters(&self) -> (r: FilterSettings)
        ensures
            r == self.filters,
    {
        self.filters
    }
}


/// A device with serial `id` at some position means there is a first one.
pub proof fn lemma_first_device_exists(devices: Seq<DeviceSettingsView>, id: Seq<char>, j: int)
    requires
        0 <= j < devices.len(),
        devices[j].device_id == id,
    ensures
        exists|i: int| is_first_device(devices, id, i),
    decreases j,
{
    if forall|k: int| 0 <= k < j ==> devices[k].device_id != id {
        assert(is_first_device(devices, id, j));
    } else {
        let k = choose|k: int| 0 <= k < j && devices[k].device_id == id;
        lemma_first_device_exists(devices, id, k);
    }
}

/// There is at most one first position of a serial.
pub proof fn lemma_first_device_unique(devices: Seq<DeviceSettingsView>, id: Seq<char>, i: int)
    requires
        is_first_device(devices, id, i),
    ensures
        device_position(devices, id) == Some(i),
{
    let k = choose|k: int| is_first_device(devices, id, k);
    assert(k == i) by {
        if k < i {
            assert(devices[k].device_id != id);
        } else if k > i {
            assert(devices[i].device_id != id);
        }
    }
}

/// Reading the last device back after saving it gives the saved serial.
pub proof fn law_last_device_read_back(c: ConfigView, id: Seq<char>)
    ensures
        c.with_last_device(id).last_device_id == Some(id),
{
}

/// Saving the device that is already the last one changes nothing, so
/// nothing needs writing; in particular saving it twice reports a change at
/// most the first time.
pub proof fn law_last_device_unchanged_save(c: ConfigView, id: Seq<char>)
    requires
        c.last_device_id == Some(id),
    ensures
        c.with_last_device(id) == c,
{
}

/// Reading the filters back after saving them gives the saved filters.
pub proof fn law_filters_read_back(c: ConfigView, f: FilterSettings)
    ensures
        c.with_filters(f).filters == f,
{
}

/// Saving the filters that are already remembered changes nothing.
pub proof fn law_filters_unchanged_save(c: ConfigView, f: FilterSettings)
    requires
        c.filters == f,
    ensures
        c.with_filters(f) == c,
{
}

/// Saving the filters or the last device leaves every other setting as it was.
pub proof fn law_saves_keep_other_settings(c: ConfigView, f: FilterSettings, id: Seq<char>)
    ensures
        c.with_filters(f).last_device_id == c.last_device_id,
        c.with_filters(f).general == c.general,
        c.with_filters(f).devices == c.devices,
        c.with_last_device(id).filters == c.filters,
        c.with_last_device(id).general == c.general,
        c.with_last_device(id).devices == c.devices,
{
}

/// After saving a device's settings, looking the device up by its serial
/// finds exactly those settings.
pub proof fn law_saved_device_found(c: ConfigView, d: DeviceSettingsView, g: GeneralSettingsView)
    ensures
        device_position(c.with_device_settings(d, g).devices, d.device_id) matches Some(i)
            && c.with_device_settings(d, g).devices[i] == d,
{
    let devs = c.devices;
    let after = c.with_device_settings(d, g).devices;
    match device_position(devs, d.device_id) {
        Some(i) => {
            assert(is_first_device(devs, d.device_id, i));
            assert(is_first_device(after, d.device_id, i));
            lemma_first_device_unique(after, d.device_id, i);
        },
        None => {
            assert forall|j: int| 0 <= j < devs.len() implies devs[j].device_id != d.device_id by {
                if devs[j].device_id == d.device_id {
                    lemma_first_device_exists(devs, d.device_id, j);
                }
            }
            assert(is_first_device(after, d.device_id, devs.len() as int));
            lemma_first_device_unique(after, d.device_id, devs.len() as int);
        },
    }
}

/// Saving a device's settings keeps every other device's entry where it was,
/// and adds an entry only when no device had that serial.
pub proof fn law_save_device_keeps_others(c: ConfigView, d: DeviceSettingsView, g: GeneralSettingsView)
    ensures
        forall|j: int|
            0 <= j < c.devices.len() && c.devices[j].device_id != d.device_id ==> #[trigger] c.with_device_settings(
                d,
                g,
            ).devices[j] == c.devices[j],
        c.with_device_settings(d, g).devices.len() == c.devices.len() + if (exists|j: int|
            0 <= j < c.devices.len() && c.devices[j].device_id == d.device_id) {
            0int
        } else {
            1int
        },
        c.with_device_settings(d, g).general == g,
        c.with_device_settings(d, g).filters == c.filters,
        c.with_device_settings(d, g).last_device_id == c.last_device_id,
{
    let devs = c.devices;
    match device_position(devs, d.device_id) {
        Some(i) => {
            assert(is_first_device(devs, d.device_id, i));
        },
        None => {
            if exists|j: int| 0 <= j < devs.len() && devs[j].device_id == d.device_id {
                let j = choose|j: int| 0 <= j < devs.len() && devs[j].device_id == d.device_id;
                lemma_first_device_exists(devs, d.device_id, j);
            }
        },
    }
}

} // verus!
