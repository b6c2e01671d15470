use arch_aim_trainer::config::{
    config_path_plan, parse_bool, parse_config, results_path_plan, setting_key, PathRoot, SettingKey,
};

fn assignments(text: &str) -> Vec<(SettingKey, String)> {
    parse_config(text).into_iter().map(|entry| (entry.key, entry.value.to_string())).collect()
}

#[test]
fn parser_accepts_known_values_and_ignores_unknown_ones() {
    let entries = parse_config("sensitivity=0.12\nhorizontal_fov=110\nlead_guide=off\nunknown=42\n");
    assert_eq!(entries.len(), 3);
    assert_eq!(entries[0].key, SettingKey::Sensitivity);
    let sensitivity: f32 = entries[0].value.parse().unwrap();
    assert!((sensitivity - 0.12).abs() < f32::EPSILON);
    assert_eq!(entries[1].key, SettingKey::HorizontalFov);
    let fov: f32 = entries[1].value.parse().unwrap();
    assert!((fov - 110.0).abs() < f32::EPSILON);
    assert_eq!(entries[2].key, SettingKey::LeadGuide);
    let mut lead_guide = true;
    parse_bool(entries[2].value, &mut lead_guide);
    assert!(!lead_guide);
}

#[test]
fn comments_blank_lines_and_white_space_are_skipped() {
    let text = "# Arch Aim Trainer settings\n\n  target_scale =  1.25  # bigger\r\nfullscreen=yes\r\n";
    assert_eq!(
        assignments(text),
        vec![(SettingKey::TargetScale, "1.25".to_string()), (SettingKey::Fullscreen, "yes".to_string())]
    );
}

#[test]
fn unicode_white_space_is_trimmed() {
    let text = "\u{a0}movement_speed\u{2003}=\u{3000}7.5\u{a0}";
    assert_eq!(assignments(text), vec![(SettingKey::MovementSpeed, "7.5".to_string())]);
}

#[test]
fn lines_without_equals_or_with_unknown_keys_are_ignored() {
    let text = "sensitivity 0.2\nSensitivity=0.3\n=5\nsession_seconds=\n";
    assert_eq!(assignments(text), vec![(SettingKey::SessionSeconds, String::new())]);
}

#[test]
fn value_is_split_at_the_first_equals_sign() {
    let text = "projectile_speed = 40 = 50";
    assert_eq!(assignments(text), vec![(SettingKey::ProjectileSpeed, "40 = 50".to_string())]);
}

#[test]
fn comment_marker_inside_a_value_ends_it() {
    assert_eq!(assignments("horizontal_fov=9#0"), vec![(SettingKey::HorizontalFov, "9".to_string())]);
    assert!(assignments("# sensitivity=0.5").is_empty());
}

#[test]
fn empty_file_assigns_nothing() {
    assert!(parse_config("").is_empty());
    assert!(parse_config("\n\n\n").is_empty());
}

#[test]
fn repeated_keys_are_kept_in_file_order() {
    let text = "lead_guide=on\nlead_guide=off";
    assert_eq!(
        assignments(text),
        vec![(SettingKey::LeadGuide, "on".to_string()), (SettingKey::LeadGuide, "off".to_string())]
    );
}

#[test]
fn joined_files_read_as_both_in_order() {
    let first = "sensitivity=0.1\nfullscreen=on";
    let second = "lead_guide=off";
    let joined = format!("{first}\n{second}");
    let mut expected = assignments(first);
    expected.extend(assignments(second));
    assert_eq!(assignments(&joined), expected);
}

#[test]
fn every_key_is_recognised() {
    let names = [
        ("sensitivity", SettingKey::Sensitivity),
        ("horizontal_fov", SettingKey::HorizontalFov),
        ("session_seconds", SettingKey::SessionSeconds),
        ("target_scale", SettingKey::TargetScale),
        ("projectile_speed", SettingKey::ProjectileSpeed),
        ("movement_speed", SettingKey::MovementSpeed),
        ("fullscreen", SettingKey::Fullscreen),
        ("lead_guide", SettingKey::LeadGuide),
    ];
    for (name, key) in names {
        assert_eq!(setting_key(name), Some(key));
    }
    assert_eq!(setting_key("lead-guide"), None);
    assert_eq!(setting_key(""), None);
}

#[test]
fn flag_words_are_read_in_any_ascii_case() {
    for word in ["true", "YES", "1", "On"] {
        let mut flag = false;
        parse_bool(word, &mut flag);
        assert!(flag, "{word}");
    }
    for word in ["FALSE", "no", "0", "oFF"] {
        let mut flag = true;
        parse_bool(word, &mut flag);
        assert!(!flag, "{word}");
    }
}

#[test]
fn unknown_flag_words_leave_the_setting_unchanged() {
    for word in ["maybe", "", "enabled", " on"] {
        let mut flag = true;
        parse_bool(word, &mut flag);
        assert!(flag);
        let mut flag = false;
        parse_bool(word, &mut flag);
        assert!(!flag);
    }
}

#[test]
fn settings_path_prefers_the_xdg_directory() {
    let plan = config_path_plan(Some(b"/xdg/config".as_slice()), true).unwrap();
    assert_eq!(plan.root, PathRoot::XdgHome);
    assert_eq!(plan.relative, "arch-aim-trainer/config.conf");
    let plan = config_path_plan(None, true).unwrap();
    assert_eq!(plan.root, PathRoot::Home);
    assert_eq!(plan.relative, ".config/arch-aim-trainer/config.conf");
    assert!(config_path_plan(None, false).is_none());
}

#[test]
fn empty_xdg_config_home_falls_back_to_home() {
    let plan = config_path_plan(Some(b"".as_slice()), true).unwrap();
    assert_eq!(plan.root, PathRoot::Home);
    assert_eq!(plan.relative, ".config/arch-aim-trainer/config.conf");
    assert!(config_path_plan(Some(b"".as_slice()), false).is_none());
}

#[test]
fn results_path_prefers_the_xdg_directory() {
    let plan = results_path_plan(Some(b"/xdg/data".as_slice()), false).unwrap();
    assert_eq!(plan.root, PathRoot::XdgHome);
    assert_eq!(plan.relative, "arch-aim-trainer/sessions.csv");
    let plan = results_path_plan(None, true).unwrap();
    assert_eq!(plan.root, PathRoot::Home);
    assert_eq!(plan.relative, ".local/share/arch-aim-trainer/sessions.csv");
    assert!(results_path_plan(None, false).is_none());
}

#[test]
fn empty_xdg_data_home_falls_back_to_home() {
    let plan = results_path_plan(Some(b"".as_slice()), true).unwrap();
    assert_eq!(plan.root, PathRoot::Home);
    assert_eq!(plan.relative, ".local/share/arch-aim-trainer/sessions.csv");
    assert!(results_path_plan(Some(b"".as_slice()), false).is_none());
}
