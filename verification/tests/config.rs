use thundertray::config::{
    monitored_files, profile_choice, Config, ConfigField, LoadedConfig, ProfileChoice, StoredConfig,
};

#[test]
fn test_default_values() {
    let config = Config::default();

    assert_eq!(config.general.thunderbird_command, "thunderbird");
    assert!(config.general.auto_start_thunderbird);

    assert_eq!(config.appearance.badge_color, "#FF0000");
    assert_eq!(config.appearance.badge_text_color, "#FFFFFF");

    assert_eq!(config.monitoring.profile_path, None);
    assert_eq!(config.monitoring.poll_interval_secs, 5);
    assert!(config.monitoring.folders.is_empty());
}

#[test]
fn validation_accepts_poll_interval_and_color_boundaries() {
    for poll_interval_secs in [1, 3600] {
        let mut config = Config::default();
        config.monitoring.poll_interval_secs = poll_interval_secs;
        config.appearance.badge_color = "#aB0".to_string();
        config.appearance.badge_text_color = "#123aBc".to_string();

        assert!(config.validate().is_ok());
    }
}

#[test]
fn validation_rejects_each_unsafe_value() {
    let mut config = Config::default();
    config.monitoring.poll_interval_secs = 0;
    assert!(config
        .validate()
        .expect_err("zero poll interval must fail")
        .to_string()
        .contains("monitoring.poll_interval_secs"));

    config.monitoring.poll_interval_secs = 3601;
    assert!(config
        .validate()
        .expect_err("poll interval above the maximum must fail")
        .to_string()
        .contains("monitoring.poll_interval_secs"));

    config.monitoring.poll_interval_secs = 5;
    config.general.thunderbird_command.clear();
    assert!(config
        .validate()
        .expect_err("empty Thunderbird command must fail")
        .to_string()
        .contains("general.thunderbird_command"));

    config.general.thunderbird_command = "thunderbird".to_string();
    for color in ["FF0000", "#FF", "#FFFF", "#FFFF0000", "#GGG"] {
        config.appearance.badge_color = color.to_string();
        assert!(config
            .validate()
            .expect_err("invalid badge color must fail")
            .to_string()
            .contains("appearance.badge_color"));
    }

    config.appearance.badge_color = "#ABC".to_string();
    config.appearance.badge_text_color = "#nope".to_string();
    assert!(config
        .validate()
        .expect_err("invalid badge text color must fail")
        .to_string()
        .contains("appearance.badge_text_color"));
}

#[test]
fn poll_interval_message_names_the_value() {
    let mut config = Config::default();
    config.monitoring.poll_interval_secs = 4000;
    let error = config.validate().expect_err("out of range");
    assert_eq!(error.field, ConfigField::PollInterval);
    assert_eq!(
        error.to_string(),
        "monitoring.poll_interval_secs must be between 1 and 3600 seconds (got 4000)"
    );
}

#[test]
fn color_message_quotes_the_value() {
    let mut config = Config::default();
    config.appearance.badge_text_color = "#nope".to_string();
    let error = config.validate().expect_err("bad colour");
    assert_eq!(error.field, ConfigField::BadgeTextColor);
    assert_eq!(
        error.to_string(),
        "appearance.badge_text_color must be #RGB or #RRGGBB hexadecimal (got \"#nope\")"
    );
}

#[test]
fn whitespace_only_command_is_empty() {
    let mut config = Config::default();
    config.general.thunderbird_command = " \t\u{3000}\n".to_string();
    let error = config.validate().expect_err("blank command");
    assert_eq!(error.field, ConfigField::ThunderbirdCommand);
}

#[test]
fn checks_run_in_order_and_report_the_first_failure() {
    let mut config = Config::default();
    config.monitoring.poll_interval_secs = 0;
    config.general.thunderbird_command.clear();
    config.appearance.badge_color = "red".to_string();
    assert_eq!(config.validate().unwrap_err().field, ConfigField::PollInterval);
}

#[test]
fn missing_file_yields_defaults_to_write() {
    match Config::load(StoredConfig::Missing) {
        Ok(LoadedConfig::CreatedDefault(config)) => {
            assert_eq!(config.general.thunderbird_command, "thunderbird");
            assert!(config.validate().is_ok());
        }
        _ => panic!("a missing file must produce the defaults"),
    }
}

#[test]
fn load_and_save_validate_before_accepting_or_writing_configuration() {
    let mut invalid = Config::default();
    invalid.monitoring.poll_interval_secs = 0;
    assert!(invalid
        .save()
        .expect_err("save must reject an invalid configuration")
        .to_string()
        .contains("monitoring.poll_interval_secs"));
    let load_error = Config::load(StoredConfig::Found(invalid))
        .err()
        .expect("load must reject an invalid configuration");
    assert!(load_error
        .to_string()
        .contains("monitoring.poll_interval_secs"));

    match Config::load(StoredConfig::Found(Config::default())) {
        Ok(LoadedConfig::Existing(config)) => assert_eq!(config.monitoring.poll_interval_secs, 5),
        _ => panic!("a valid stored configuration must be used"),
    }
}

#[test]
fn a_saved_configuration_loads_back_unchanged() {
    let mut config = Config::default();
    config.general.thunderbird_command = "flatpak run org.mozilla.Thunderbird".to_string();
    config.appearance.badge_color = "#0A0".to_string();
    config.monitoring.poll_interval_secs = 3600;
    config.monitoring.folders = vec!["/p/Mail/a/INBOX.msf".to_string()];
    assert!(config.save().is_ok());
    match Config::load(StoredConfig::Found(config)) {
        Ok(LoadedConfig::Existing(used)) => {
            assert_eq!(used.general.thunderbird_command, "flatpak run org.mozilla.Thunderbird");
            assert_eq!(used.appearance.badge_color, "#0A0");
            assert_eq!(used.monitoring.poll_interval_secs, 3600);
            assert_eq!(used.monitoring.folders, vec!["/p/Mail/a/INBOX.msf".to_string()]);
        }
        _ => panic!("a configuration save accepts must load back"),
    }
}

#[test]
fn the_configured_profile_is_used_before_detection() {
    let mut config = Config::default();
    match profile_choice(&config) {
        ProfileChoice::Detect(command) => assert_eq!(command, "thunderbird"),
        ProfileChoice::Configured(_) => panic!("nothing is configured"),
    }
    config.monitoring.profile_path = Some("/home/u/.thunderbird/p".to_string());
    match profile_choice(&config) {
        ProfileChoice::Configured(path) => assert_eq!(path, "/home/u/.thunderbird/p"),
        ProfileChoice::Detect(_) => panic!("the configured profile must be used"),
    }
}

#[test]
fn configured_folders_replace_discovery() {
    let mut config = Config::default();
    let found = monitored_files(&config, || vec!["/p/ImapMail/a/INBOX.msf".to_string()]);
    assert_eq!(found, vec!["/p/ImapMail/a/INBOX.msf".to_string()]);
    config.monitoring.folders = vec!["/p/Mail/b/INBOX.msf".to_string()];
    let configured = monitored_files(&config, || -> Vec<String> {
        panic!("discovery must not run when folders are configured")
    });
    assert_eq!(configured, vec!["/p/Mail/b/INBOX.msf".to_string()]);
}
