//! ThunderTray's configuration, its defaults and its validation.
//!
//! Reading and writing the TOML file is done by the application around this
//! library; the library decides what a stored file means and which values may
//! be accepted or written.

use crate::text::{
    all_ws, chars_of, decimal, hex_digit_value, is_hex, is_ws, lemma_trim_empty_iff_all_ws,
    push_decimal, texts, trim_range,
};
use vstd::prelude::*;

verus! {

/// Main configuration structure.
#[derive(Debug)]
pub struct Config {
    pub general: GeneralConfig,
    pub appearance: AppearanceConfig,
    pub monitoring: MonitoringConfig,
}

/// How Thunderbird is started.
#[derive(Debug)]
pub struct GeneralConfig {
    pub thunderbird_command: String,
    pub auto_start_thunderbird: bool,
}

/// Colours of the unread badge.
#[derive(Debug)]
pub struct AppearanceConfig {
    pub badge_color: String,
    pub badge_text_color: String,
}

/// What is monitored and how often.
#[derive(Debug)]
pub struct MonitoringConfig {
    pub profile_path: Option<String>,
    pub poll_interval_secs: u64,
    pub folders: Vec<String>,
}

/// The configuration value that failed validation.
#[derive(Debug, Clone, Copy, PartialEq, Eq, Structural)]
pub enum ConfigField {
    PollInterval,
    ThunderbirdCommand,
    BadgeColor,
    BadgeTextColor,
}

/// Error returned when configuration values are outside ThunderTray's safe range.
#[derive(Debug)]
pub struct ConfigValidationError {
    pub field: ConfigField,
    pub message: String,
}

/// The configuration file as the application found it.
#[derive(Debug)]
pub enum StoredConfig {
    /// The file existed and parsed into this configuration.
    Found(Config),
    /// There is no configuration file yet.
    Missing,
}

/// The configuration that loading settles on.
#[derive(Debug)]
pub enum LoadedConfig {
    /// The stored configuration, which is valid.
    Existing(Config),
    /// The defaults, which the application must now write to the missing file.
    CreatedDefault(Config),
}

/// What `format!("{:?}", s)` writes for a string slice.
pub uninterp spec fn str_debug(s: Seq<char>) -> Seq<char>;

/// `#RGB` or `#RRGGBB` with hexadecimal digits.
pub open spec fn color_is_valid(c: Seq<char>) -> bool {
    &&& c.len() == 4 || c.len() == 7
    &&& c[0] == '#'
    &&& forall|i: int| 1 <= i < c.len() ==> is_hex(#[trigger] c[i])
}

/// The first value, in the order they are checked, that makes a configuration unusable.
pub open spec fn first_invalid_field(c: Config) -> Option<ConfigField> {
    if !(1 <= c.monitoring.poll_interval_secs <= 3600) {
        Some(ConfigField::PollInterval)
    } else if all_ws(c.general.thunderbird_command@) {
        Some(ConfigField::ThunderbirdCommand)
    } else if !color_is_valid(c.appearance.badge_color@) {
        Some(ConfigField::BadgeColor)
    } else if !color_is_valid(c.appearance.badge_text_color@) {
        Some(ConfigField::BadgeTextColor)
    } else {
        None
    }
}

/// A configuration that ThunderTray accepts.
pub open spec fn is_valid(c: Config) -> bool {
    first_invalid_field(c) is None
}

/// The explanation given for an invalid field.
pub open spec fn validation_message(c: Config, f: ConfigField) -> Seq<char> {
    match f {
        ConfigField::PollInterval => "monitoring.poll_interval_secs must be between 1 and 3600 seconds (got "@
            + decimal(c.monitoring.poll_interval_secs as nat) + ")"@,
        ConfigField::ThunderbirdCommand => "general.thunderbird_command must not be empty"@,
        ConfigField::BadgeColor => "appearance.badge_color"@
            + " must be #RGB or #RRGGBB hexadecimal (got "@ + str_debug(c.appearance.badge_color@)
            + ")"@,
        ConfigField::BadgeTextColor => "appearance.badge_text_color"@
            + " must be #RGB or #RRGGBB hexadecimal (got "@ + str_debug(
            c.appearance.badge_text_color@,
        ) + ")"@,
    }
}

/// The error `validate` reports for a configuration.
pub open spec fn validation_error_of(c: Config, e: ConfigValidationError) -> bool {
    &&& first_invalid_field(c) == Some(e.field)
    &&& e.message@ == validation_message(c, e.field)
}

/// What loading makes of a stored configuration: a stored configuration is used,
/// unchanged, exactly when it is valid, and otherwise refused with its first
/// invalid field; a missing file gives the defaults, which are valid.
pub open spec fn load_outcome(stored: StoredConfig, r: Result<LoadedConfig, ConfigValidationError>) -> bool {
    match stored {
        StoredConfig::Found(c) => match r {
            Ok(LoadedConfig::Existing(used)) => used == c && is_valid(c),
            Ok(LoadedConfig::CreatedDefault(_)) => false,
            Err(e) => validation_error_of(c, e),
        },
        StoredConfig::Missing => match r {
            Ok(LoadedConfig::CreatedDefault(d)) => is_default(d) && is_valid(d),
            _ => false,
        },
    }
}

/// What saving decides: a configuration may be written exactly when it is valid.
pub open spec fn save_outcome(c: Config, r: Result<(), ConfigValidationError>) -> bool {
    match r {
        Ok(()) => is_valid(c),
        Err(e) => validation_error_of(c, e),
    }
}

/// The built-in defaults.
pub open spec fn is_default_general(g: GeneralConfig) -> bool {
    g.thunderbird_command@ == "thunderbird"@ && g.auto_start_thunderbird
}

pub open spec fn is_default_appearance(a: AppearanceConfig) -> bool {
    a.badge_color@ == "#FF0000"@ && a.badge_text_color@ == "#FFFFFF"@
}

pub open spec fn is_default_monitoring(m: MonitoringConfig) -> bool {
    m.profile_path is None && m.poll_interval_secs == 5 && m.folders@.len() == 0
}

pub open spec fn is_default(c: Config) -> bool {
    is_default_general(c.general) && is_default_appearance(c.appearance) && is_default_monitoring(
        c.monitoring,
    )
}

/// Formats a string slice with `Debug`, which quotes and escapes it.
#[verifier::external_body]
fn debug_quoted(s: &str) -> (r: String)
    ensures
        r@ == str_debug(s@),
{
    format!("{s:?}")
}

impl Default for GeneralConfig {
    fn default() -> (r: Self)
        ensures
            is_default_general(r),
    {
        GeneralConfig { thunderbird_command: String::from_str("thunderbird"), auto_start_thunderbird: true }
    }
}

impl Default for AppearanceConfig {
    fn default() -> (r: Self)
        ensures
            is_default_appearance(r),
    {
        AppearanceConfig {
            badge_color: String::from_str("#FF0000"),
            badge_text_color: String::from_str("#FFFFFF"),
        }
    }
}

impl Default for MonitoringConfig {
    fn default() -> (r: Self)
        ensures
            is_default_monitoring(r),
    {
        MonitoringConfig { profile_path: None, poll_interval_secs: 5, folders: Vec::new() }
    }
}

impl Default for Config {
    fn default() -> (r: Self)
        ensures
            is_default(r),
    {
        Config {
            general: GeneralConfig::default(),
            appearance: AppearanceConfig::default(),
            monitoring: MonitoringConfig::default(),
        }
    }
}

/// Whether a colour is `#RGB` or `#RRGGBB` hexadecimal.
pub fn is_valid_color(color: &str) -> (r: bool)
    ensures
        r == color_is_valid(color@),
{
    let v = chars_of(color);
    let n = v.len();
    if !(n == 4 || n == 7) || v[0] != '#' {
        return false;
    }
    let mut i: usize = 1;
    while i < n
        invariant
            n == v@.len(),
            v@ == color@,
            1 <= i <= n,
            forall|k: int| 1 <= k < i ==> is_hex(#[trigger] v@[k]),
        decreases n - i,
    {
        if hex_digit_value(v[i]).is_none() {
            return false;
        }
        i = i + 1;
    }
    true
}

/// Whether a text is empty after trimming whitespace.
pub fn is_blank(s: &str) -> (r: bool)
    ensures
        r == all_ws(s@),
{
    let v = chars_of(s);
    let (a, b) = trim_range(&v, 0, v.len());
    proof {
        assert(v@.subrange(0, v@.len() as int) =~= v@);
        lemma_trim_empty_iff_all_ws(v@);
    }
    a == b
}

fn color_error(field: ConfigField, name: &str, color: &str) -> (e: ConfigValidationError)
    ensures
        e.field == field,
        e.message@ == name@ + " must be #RGB or #RRGGBB hexadecimal (got "@ + str_debug(color@)
            + ")"@,
{
    let mut message = String::from_str(name);
    message.append(" must be #RGB or #RRGGBB hexadecimal (got ");
    let quoted = debug_quoted(color);
    message.append(quoted.as_str());
    message.append(")");
    ConfigValidationError { field, message }
}

impl ConfigValidationError {
    /// The explanation, as `Display` gives it.
    pub fn to_string(&self) -> (r: String)
        ensures
            r@ == self.message@,
    {
        String::from_str(self.message.as_str())
    }
}

impl Config {
    /// Validates values that are unsafe or unusable at runtime.
    pub fn validate(&self) -> (r: Result<(), ConfigValidationError>)
        ensures
            match r {
                Ok(()) => is_valid(*self),
                Err(e) => validation_error_of(*self, e),
            },
    {
        let secs = self.monitoring.poll_interval_secs;
        if !(1 <= secs && secs <= 3600) {
            let mut message = String::from_str(
                "monitoring.poll_interval_secs must be between 1 and 3600 seconds (got ",
            );
            push_decimal(&mut message, secs);
            message.append(")");
            return Err(ConfigValidationError { field: ConfigField::PollInterval, message });
        }
        if is_blank(self.general.thunderbird_command.as_str()) {
            return Err(
                ConfigValidationError {
                    field: ConfigField::ThunderbirdCommand,
                    message: String::from_str("general.thunderbird_command must not be empty"),
                },
            );
        }
        if !is_valid_color(self.appearance.badge_color.as_str()) {
            return Err(
                color_error(
                    ConfigField::BadgeColor,
                    "appearance.badge_color",
                    self.appearance.badge_color.as_str(),
                ),
            );
        }
        if !is_valid_color(self.appearance.badge_text_color.as_str()) {
            return Err(
                color_error(
                    ConfigField::BadgeTextColor,
                    "appearance.badge_text_color",
                    self.appearance.badge_text_color.as_str(),
                ),
            );
        }
        Ok(())
    }

    /// Decides what a stored configuration file amounts to: a stored configuration
    /// is used only when it is valid, and a missing file is replaced by the
    /// defaults, which the application then writes.
    pub fn load(stored: StoredConfig) -> (r: Result<LoadedConfig, ConfigValidationError>)
        ensures
            load_outcome(stored, r),
    {
        match stored {
            StoredConfig::Found(config) => match config.validate() {
                Ok(()) => Ok(LoadedConfig::Existing(config)),
                Err(e) => Err(e),
            },
            StoredConfig::Missing => {
                let config = Config::default();
                proof {
                    default_config_is_valid(config);
                }
                Ok(LoadedConfig::CreatedDefault(config))
            },
        }
    }

    /// Decides whether this configuration may be written: only a valid one is.
    /// On `Ok` the application serialises and writes it; on `Err` nothing is written.
    pub fn save(&self) -> (r: Result<(), ConfigValidationError>)
        ensures
            save_outcome(*self, r),
    {
        self.validate()
    }
}

/// Where the profile to monitor comes from.
pub enum ProfileChoice {
    /// The profile path set in the configuration.
    Configured(String),
    /// None is set: detect it for this launch command.
    Detect(String),
}

/// The configured profile path when there is one; otherwise the profile is
/// detected for the configured launch command.
pub fn profile_choice(config: &Config) -> (r: ProfileChoice)
    ensures
        match config.monitoring.profile_path {
            Some(p) => r matches ProfileChoice::Configured(q) && q@ == p@,
            None => r matches ProfileChoice::Detect(cmd) && cmd@
                == config.general.thunderbird_command@,
        },
{
    match &config.monitoring.profile_path {
        Some(p) => ProfileChoice::Configured(String::from_str(p.as_str())),
        None => ProfileChoice::Detect(String::from_str(config.general.thunderbird_command.as_str())),
    }
}

/// The summary files to monitor: the configured folders when there are any,
/// otherwise the inboxes `discover` finds (it is called only then).
pub fn monitored_files<F: FnOnce() -> Vec<String>>(config: &Config, discover: F) -> (r: Vec<
    String,
>)
    requires
        config.monitoring.folders@.len() == 0 ==> call_requires(discover, ()),
    ensures
        config.monitoring.folders@.len() > 0 ==> texts(r@) == texts(config.monitoring.folders@),
        config.monitoring.folders@.len() == 0 ==> exists|d: Vec<String>|
            call_ensures(discover, (), d) && r@ == d@,
{
    let folders = &config.monitoring.folders;
    if folders.len() == 0 {
        let found = discover();
        assert(call_ensures(discover, (), found) && found@ == found@);
        return found;
    }
    let mut r: Vec<String> = Vec::new();
    let mut i: usize = 0;
    while i < folders.len()
        invariant
            i <= folders@.len(),
            texts(r@) == texts(folders@).take(i as int),
        decreases folders@.len() - i,
    {
        let ghost before = r@;
        r.push(String::from_str(folders[i].as_str()));
        assert(texts(r@) =~= texts(before).push(folders@[i as int]@));
        assert(texts(folders@).take(i + 1) =~= texts(folders@).take(i as int).push(
            folders@[i as int]@,
        ));
        i = i + 1;
    }
    assert(texts(folders@).take(folders@.len() as int) =~= texts(folders@));
    r
}

/// The built-in defaults are a valid configuration.
pub proof fn default_config_is_valid(c: Config)
    requires
        is_default(c),
    ensures
        is_valid(c),
{
    reveal_strlit("thunderbird");
    reveal_strlit("#FF0000");
    reveal_strlit("#FFFFFF");
    assert(!is_ws(c.general.thunderbird_command@[0]));
    assert(is_hex(c.appearance.badge_color@[1]));
}

/// Law of the configuration file: a configuration that `save` accepts comes
/// back unchanged from `load` of the same stored value.
pub proof fn saved_configuration_loads_back(
    c: Config,
    saved: Result<(), ConfigValidationError>,
    loaded: Result<LoadedConfig, ConfigValidationError>,
)
    requires
        save_outcome(c, saved),
        saved is Ok,
        load_outcome(StoredConfig::Found(c), loaded),
    ensures
        loaded matches Ok(LoadedConfig::Existing(used)) && used == c,
{
}

} // verus!
