use thundertray::config::Config;
use thundertray::settings::apply_settings_output;

#[test]
fn five_lines_update_the_configuration() {
    let updated = apply_settings_output(
        Config::default(),
        "  flatpak run org.mozilla.Thunderbird \ntrue\n#00FF00\n#000\n 30 \n\n",
    )
    .expect("five lines are an answer");
    assert_eq!(updated.general.thunderbird_command, "flatpak run org.mozilla.Thunderbird");
    assert!(updated.general.auto_start_thunderbird);
    assert_eq!(updated.appearance.badge_color, "#00FF00");
    assert_eq!(updated.appearance.badge_text_color, "#000");
    assert_eq!(updated.monitoring.poll_interval_secs, 30);
}

#[test]
fn unusable_values_keep_the_current_ones() {
    // Six lines: not an answer.
    assert!(apply_settings_output(Config::default(), "x\n   \nTRUE\nred\n#ab\n0").is_none());

    let updated = apply_settings_output(Config::default(), "tb\nTRUE\nred\n#ab\n0")
        .expect("five lines are an answer");
    assert_eq!(updated.general.thunderbird_command, "tb");
    assert!(!updated.general.auto_start_thunderbird);
    assert_eq!(updated.appearance.badge_color, "#FF0000");
    assert_eq!(updated.appearance.badge_text_color, "#FFFFFF");
    assert_eq!(updated.monitoring.poll_interval_secs, 5);
}

#[test]
fn poll_interval_accepts_a_plus_sign_and_rejects_garbage() {
    let updated = apply_settings_output(Config::default(), "tb\nfalse\n#123\n#456\n+12")
        .expect("five lines are an answer");
    assert_eq!(updated.monitoring.poll_interval_secs, 12);
    let updated = apply_settings_output(Config::default(), "tb\nfalse\n#123\n#456\n12s")
        .expect("five lines are an answer");
    assert_eq!(updated.monitoring.poll_interval_secs, 5);
}

#[test]
fn other_answers_change_nothing() {
    assert!(apply_settings_output(Config::default(), "").is_none());
    assert!(apply_settings_output(Config::default(), "a\nb\nc\nd").is_none());
}
