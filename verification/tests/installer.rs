use thundertray::installer::{
    activation_for, autostart_path, config_dir_path, service_unit, stable_binary_path,
    status_report, systemd_quote, systemd_service_path, Activation, ProfileStatus, StatusFacts,
};

fn facts(active: bool, profile: Option<ProfileStatus>) -> StatusFacts {
    StatusFacts {
        service_active: active,
        installed_binary: "/home/u/.local/bin/thundertray".to_string(),
        binary_present: true,
        service_file: "/home/u/.config/systemd/user/thundertray.service".to_string(),
        service_file_present: false,
        thunderbird_running: false,
        config_file: "/home/u/.config/thundertray/config.toml".to_string(),
        config_present: true,
        profile,
    }
}

#[test]
fn systemd_path_is_quoted_and_escaped() {
    assert_eq!(systemd_quote("/tmp/a b"), "\"/tmp/a b\"");
    assert_eq!(systemd_quote("/tmp/a\\b"), "\"/tmp/a\\\\b\"");
}

#[test]
fn quotes_inside_paths_are_escaped() {
    assert_eq!(systemd_quote("/tmp/\"x\""), "\"/tmp/\\\"x\\\"\"");
}

#[test]
fn service_unit_runs_the_quoted_binary() {
    let unit = service_unit("/home/u/.local/bin/thundertray");
    assert!(unit.starts_with("[Unit]\n"));
    assert!(unit.contains("\nExecStart=\"/home/u/.local/bin/thundertray\"\nRestart=on-failure\n"));
    assert!(unit.ends_with("WantedBy=graphical-session.target\n"));
}

#[test]
fn install_locations() {
    assert_eq!(stable_binary_path("/home/u"), "/home/u/.local/bin/thundertray");
    assert_eq!(
        systemd_service_path("/home/u/.config"),
        "/home/u/.config/systemd/user/thundertray.service"
    );
    assert_eq!(
        autostart_path("/home/u/.config/"),
        "/home/u/.config/autostart/thundertray.desktop"
    );
    assert_eq!(config_dir_path("/home/u/.config"), "/home/u/.config/thundertray");
}

#[test]
fn an_active_service_is_restarted() {
    assert_eq!(activation_for(true), Activation::Restart);
    assert_eq!(activation_for(true).verb(), "restart");
    assert_eq!(activation_for(false).verb(), "start");
    assert_eq!(activation_for(false).description(), "starting ThunderTray");
}

#[test]
fn status_report_of_a_running_service() {
    let report = status_report(&facts(
        true,
        Some(ProfileStatus::Found {
            profile: "/home/u/.thunderbird/p".to_string(),
            inboxes: 2,
            unread: 17,
        }),
    ));
    assert_eq!(
        report,
        vec![
            "ThunderTray status",
            "  Service: running",
            "  Installed binary: /home/u/.local/bin/thundertray (present)",
            "  Service file: /home/u/.config/systemd/user/thundertray.service (missing)",
            "  Thunderbird: not running",
            "  Config: /home/u/.config/thundertray/config.toml (present)",
            "  Profile: /home/u/.thunderbird/p",
            "  Monitoring: 2 inbox(es), 17 unread",
        ]
    );
}

#[test]
fn status_report_suggests_a_remedy_when_stopped() {
    let report = status_report(&facts(
        false,
        Some(ProfileStatus::NotFound {
            reason: "no profile".to_string(),
        }),
    ));
    assert_eq!(report[1], "  Service: stopped");
    assert_eq!(report[6], "  Profile: not found (no profile)");
    assert_eq!(
        report[7],
        "  Remedy: run `thundertray install` or inspect `journalctl --user -u thundertray -n 20`."
    );
    assert_eq!(report.len(), 8);
}

#[test]
fn status_report_stops_before_an_unreadable_configuration() {
    assert_eq!(status_report(&facts(false, None)).len(), 6);
}
