use thundertray::window::{
    has_thunderbird_window, process_looks_like_thunderbird, toggle_action, ToggleAction,
    WindowManager,
};

#[test]
fn test_new() {
    let wm = WindowManager::new("thunderbird");
    assert_eq!(wm.program(), "thunderbird");
    assert!(wm.args().is_empty());
}

#[test]
fn test_command_with_arguments_is_split_without_shell() {
    let wm = WindowManager::new("snap run thunderbird");
    assert_eq!(wm.program(), "snap");
    assert_eq!(wm.args(), &["run", "thunderbird"]);
}

#[test]
fn test_snap_process_is_detected_from_arguments() {
    assert!(process_looks_like_thunderbird(
        "/usr/bin/snap\0run\0thunderbird\0"
    ));
    assert!(process_looks_like_thunderbird(
        "/usr/bin/flatpak\0run\0org.mozilla.Thunderbird\0"
    ));
    assert!(!process_looks_like_thunderbird("/usr/bin/bash\0"));
}

#[test]
fn quoted_arguments_stay_together() {
    let wm = WindowManager::new("flatpak run 'org.mozilla.Thunderbird'");
    assert_eq!(wm.program(), "flatpak");
    assert_eq!(wm.args(), &["run", "org.mozilla.Thunderbird"]);
}

#[test]
fn unsplittable_or_empty_commands_fall_back_to_thunderbird() {
    let unbalanced = WindowManager::new("\"thunderbird");
    assert_eq!(unbalanced.program(), "thunderbird");
    assert!(unbalanced.args().is_empty());
    let empty = WindowManager::from_words(Some(Vec::new()));
    assert_eq!(empty.program(), "thunderbird");
    let words = WindowManager::from_words(Some(vec!["snap".to_string(), "run".to_string()]));
    assert_eq!(words.program(), "snap");
    assert_eq!(words.args(), &["run"]);
}

#[test]
fn program_name_matches_in_any_case_but_not_as_a_substring() {
    assert!(process_looks_like_thunderbird("/opt/Thunderbird/THUNDERBIRD\0-P\0"));
    assert!(!process_looks_like_thunderbird("/usr/bin/thunderbird-helper\0"));
}

#[test]
fn running_is_judged_from_all_command_lines() {
    let wm = WindowManager::new("thunderbird");
    let lines = vec!["/usr/bin/bash\0".to_string(), "/usr/lib/thunderbird/thunderbird\0".to_string()];
    assert!(wm.is_thunderbird_running(&lines));
    assert!(!wm.is_thunderbird_running(&vec!["/usr/bin/bash\0".to_string()]));
}

#[test]
fn window_appears_once_thunderbird_has_many_threads() {
    let processes = vec![
        ("/usr/bin/bash\0".to_string(), Some(40)),
        ("/usr/bin/thunderbird\0".to_string(), None),
        ("/usr/bin/thunderbird\0".to_string(), Some(3)),
    ];
    assert!(!has_thunderbird_window(&processes));
    let busy = vec![("/usr/bin/thunderbird\0".to_string(), Some(6))];
    assert!(has_thunderbird_window(&busy));
}

#[test]
fn toggling_starts_thunderbird_when_it_is_not_running() {
    assert_eq!(toggle_action(false), ToggleAction::StartAndShow);
    assert_eq!(toggle_action(true), ToggleAction::ToggleWindow);
}
