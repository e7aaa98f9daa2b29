use thundertray::kwin_script::{
    loaded_script_path, plugin_name, HIDE_SCRIPT, SHOW_SCRIPT, TOGGLE_SCRIPT,
};

#[test]
fn test_show_script_content() {
    assert!(SHOW_SCRIPT.contains("org.mozilla.Thunderbird"));
    assert!(SHOW_SCRIPT.contains("activeWindow"));
}

#[test]
fn test_toggle_script_content() {
    assert!(TOGGLE_SCRIPT.contains("org.mozilla.Thunderbird"));
    assert!(TOGGLE_SCRIPT.contains("skipTaskbar"));
}

#[test]
fn test_hide_script_only_targets_thunderbird() {
    assert!(HIDE_SCRIPT.contains("org.mozilla.Thunderbird"));
    assert!(HIDE_SCRIPT.contains("skipTaskbar = true"));
}

#[test]
fn plugin_names_are_unique_per_process_and_invocation() {
    assert_eq!(plugin_name(4242, 7), "thundertray_4242_7");
    assert_ne!(plugin_name(4242, 7), plugin_name(4242, 8));
    // The separator keeps the two numbers apart.
    assert_ne!(plugin_name(12, 3), plugin_name(1, 23));
}

#[test]
fn load_script_reply_is_checked() {
    assert_eq!(loaded_script_path(3).unwrap(), "/Scripting/Script3");
    assert_eq!(
        loaded_script_path(-1).unwrap_err(),
        "KWin loadScript failed (returned -1)"
    );
}
