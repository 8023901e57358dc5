use rndwalker::config::{
    can_add_folder, empty_folder_groups, MAX_FOLDERS_PER_GROUP, normalize_folder_groups, FolderPreset, NUM_GROUPS, PRESET_FUNCTION_KEYS,
};
use rndwalker::settings::{AppSettings, PresetError, SettingsError};

fn groups(items: &[&[&str]]) -> Vec<Vec<String>> {
    items.iter().map(|g| g.iter().map(|s| s.to_string()).collect()).collect()
}

#[test]
fn normalize_adds_missing_groups_and_slots() {
    let groups = normalize_folder_groups(vec![vec!["a".into()], vec!["b".into(), "c".into()]]);

    assert_eq!(groups.len(), NUM_GROUPS);
    assert_eq!(groups[0], vec!["a"]);
    assert_eq!(groups[1], vec!["b", "c"]);
    assert_eq!(groups[2], vec![""]);
}

#[test]
fn normalize_keeps_only_unique_supported_preset_hotkeys() {
    let mut settings = AppSettings::default();
    settings.presets.insert(
        "a".into(),
        FolderPreset {
            hotkey: Some(1),
            ..FolderPreset::default()
        },
    );
    settings.presets.insert(
        "b".into(),
        FolderPreset {
            hotkey: Some(1),
            ..FolderPreset::default()
        },
    );
    settings.presets.insert(
        "invalid".into(),
        FolderPreset {
            hotkey: Some(5),
            ..FolderPreset::default()
        },
    );

    settings.normalize();

    assert_eq!(settings.presets.get("a").unwrap().hotkey, Some(1));
    assert_eq!(settings.presets.get("b").unwrap().hotkey, None);
    assert_eq!(settings.presets.get("invalid").unwrap().hotkey, None);
}

#[test]
fn restore_active_preset_matches_current_folders() {
    let mut settings = AppSettings::default();
    settings.mp4_folder_paths[0][0] = "videos".into();
    settings.mp3_folder_path = "music".into();
    settings.presets.insert(
        "work".into(),
        FolderPreset {
            mp4_folder_paths: settings.mp4_folder_paths.clone(),
            mp3_folder_path: settings.mp3_folder_path.clone(),
            ..FolderPreset::default()
        },
    );

    assert!(settings.restore_active_preset());
    assert_eq!(settings.active_preset.as_deref(), Some("work"));
}

#[test]
fn empty_groups_have_one_empty_folder_each() {
    let groups = empty_folder_groups();
    assert_eq!(groups.len(), NUM_GROUPS);
    assert!(groups.iter().all(|g| g == &vec![String::new()]));
}

#[test]
fn normalize_drops_extra_groups_and_trailing_blank_folders() {
    let mut input = groups(&[&["a", " ", "b", "  ", "\t"], &[], &["", ""]]);
    for i in 0..12 {
        input.push(vec![format!("extra{i}")]);
    }
    let out = normalize_folder_groups(input);
    assert_eq!(out.len(), NUM_GROUPS);
    assert_eq!(out[0], vec!["a", " ", "b"]);
    assert_eq!(out[1], vec![""]);
    assert_eq!(out[2], vec![""]);
    assert_eq!(out[3], vec!["extra0"]);
    assert_eq!(out[8], vec!["extra5"]);
}

#[test]
fn normalize_folder_groups_is_idempotent() {
    let once = normalize_folder_groups(groups(&[&["x", "", "y", " "], &["", "z"], &[" "]]));
    let twice = normalize_folder_groups(once.clone());
    assert_eq!(once, twice);
}

#[test]
fn normalize_settings_twice_changes_nothing_more() {
    let mut settings = AppSettings::default();
    settings.mp4_folder_paths = groups(&[&["v", " "]]);
    settings.presets.insert(
        "p".into(),
        FolderPreset { hotkey: Some(12), ..FolderPreset::default() },
    );
    settings.presets.insert(
        "q".into(),
        FolderPreset { hotkey: Some(12), ..FolderPreset::default() },
    );
    settings.active_preset = Some("missing".into());
    settings.normalize();
    assert_eq!(settings.mp4_folder_paths[0], vec!["v"]);
    assert_eq!(settings.active_preset, None);
    assert_eq!(settings.presets.get("p").unwrap().hotkey, Some(12));
    assert_eq!(settings.presets.get("q").unwrap().hotkey, None);
    let first = format!("{:?}", settings);
    settings.normalize();
    assert_eq!(format!("{:?}", settings), first);
}

#[test]
fn normalize_keeps_existing_active_preset() {
    let mut settings = AppSettings::default();
    settings.presets.insert("p".into(), FolderPreset::default());
    settings.active_preset = Some("p".into());
    settings.normalize();
    assert_eq!(settings.active_preset.as_deref(), Some("p"));
}

#[test]
fn restore_does_nothing_when_a_preset_is_active_or_none_matches() {
    let mut settings = AppSettings::default();
    settings.presets.insert("p".into(), FolderPreset::default());
    settings.active_preset = Some("other".into());
    assert!(!settings.restore_active_preset());
    assert_eq!(settings.active_preset.as_deref(), Some("other"));

    let mut settings = AppSettings::default();
    settings.mp3_folder_path = "music".into();
    settings.presets.insert("p".into(), FolderPreset::default());
    assert!(!settings.restore_active_preset());
    assert_eq!(settings.active_preset, None);
}

#[test]
fn restore_picks_first_matching_preset_by_name() {
    let mut settings = AppSettings::default();
    settings.presets.insert("zeta".into(), FolderPreset::default());
    settings.presets.insert("alpha".into(), FolderPreset::default());
    assert!(settings.restore_active_preset());
    assert_eq!(settings.active_preset.as_deref(), Some("alpha"));
}

#[test]
fn is_configured_needs_first_video_folder_and_music_folder() {
    let mut settings = AppSettings::default();
    assert!(!settings.is_configured());
    settings.mp4_folder_paths[0][0] = "videos".into();
    assert!(!settings.is_configured());
    settings.mp3_folder_path = "  ".into();
    assert!(!settings.is_configured());
    settings.mp3_folder_path = "music".into();
    assert!(settings.is_configured());
}

#[test]
fn presets_iterate_in_name_order_and_replace_by_name() {
    let mut settings = AppSettings::default();
    for name in ["b", "a", "c", "aa", "B"] {
        settings.presets.insert(name.into(), FolderPreset::default());
    }
    let names: Vec<String> = (0..settings.presets.len())
        .map(|i| settings.presets.entry(i).name.clone())
        .collect();
    assert_eq!(names, vec!["B", "a", "aa", "b", "c"]);
    settings.presets.insert(
        "a".into(),
        FolderPreset { hotkey: Some(3), ..FolderPreset::default() },
    );
    assert_eq!(settings.presets.len(), 5);
    assert_eq!(settings.presets.get("a").unwrap().hotkey, Some(3));
    assert!(settings.presets.remove("a").is_some());
    assert!(settings.presets.get("a").is_none());
    assert!(settings.presets.remove("a").is_none());
    assert_eq!(settings.presets.len(), 4);
}

#[test]
fn activate_preset_switches_folders_and_marks_it_active() {
    let mut settings = AppSettings::default();
    settings.presets.insert(
        "work".into(),
        FolderPreset {
            mp4_folder_paths: groups(&[&["w", ""]]),
            mp3_folder_path: "m".into(),
            hotkey: None,
        },
    );
    assert!(!settings.activate_preset("nope"));
    assert!(settings.activate_preset("work"));
    assert_eq!(settings.mp4_folder_paths.len(), NUM_GROUPS);
    assert_eq!(settings.mp4_folder_paths[0], vec!["w"]);
    assert_eq!(settings.mp3_folder_path, "m");
    assert_eq!(settings.active_preset.as_deref(), Some("work"));
}

#[test]
fn save_preset_trims_name_and_keeps_hotkey() {
    let mut settings = AppSettings::default();
    let folders = groups(&[&["x"]]);
    assert_eq!(
        settings.save_preset("   ", &folders, &"m".to_string()),
        Err(PresetError::EmptyName)
    );
    settings.presets.insert("n".into(), FolderPreset { hotkey: Some(4), ..FolderPreset::default() });
    let name = settings.save_preset("  n \n", &folders, &"m".to_string()).unwrap();
    assert_eq!(name, "n");
    let preset = settings.presets.get("n").unwrap();
    assert_eq!(preset.hotkey, Some(4));
    assert_eq!(preset.mp4_folder_paths, folders);
    assert_eq!(preset.mp3_folder_path, "m");
}

#[test]
fn load_and_delete_preset_report_errors() {
    let mut settings = AppSettings::default();
    assert_eq!(settings.load_preset("").unwrap_err(), PresetError::NoSelection);
    assert_eq!(settings.load_preset("x").unwrap_err(), PresetError::NotFound);
    settings.presets.insert(
        "x".into(),
        FolderPreset { mp3_folder_path: "mm".into(), ..FolderPreset::default() },
    );
    let (folders, mp3) = settings.load_preset("x").unwrap();
    assert_eq!(folders, empty_folder_groups());
    assert_eq!(mp3, "mm");
    assert_eq!(settings.delete_preset(""), Err(PresetError::NoSelection));
    settings.active_preset = Some("x".into());
    assert_eq!(settings.delete_preset("x"), Ok(()));
    assert!(settings.presets.get("x").is_none());
    assert_eq!(settings.active_preset, None);
    assert_eq!(PresetError::EmptyName.message(), "プリセット名を入力してください");
}

#[test]
fn assigning_a_hotkey_takes_it_from_other_presets() {
    let mut settings = AppSettings::default();
    settings.presets.insert("a".into(), FolderPreset { hotkey: Some(2), ..FolderPreset::default() });
    settings.presets.insert("b".into(), FolderPreset { hotkey: Some(3), ..FolderPreset::default() });
    settings.assign_preset_hotkey("b", Some(2));
    assert_eq!(settings.presets.get("a").unwrap().hotkey, None);
    assert_eq!(settings.presets.get("b").unwrap().hotkey, Some(2));
    settings.assign_preset_hotkey("b", None);
    assert_eq!(settings.presets.get("b").unwrap().hotkey, None);
}

#[test]
fn apply_inputs_requires_folders_and_updates_selected_preset() {
    let mut settings = AppSettings::default();
    settings.presets.insert("sel".into(), FolderPreset::default());
    let blank = groups(&[&[" "]]);
    assert_eq!(
        settings.apply_inputs(&blank, &"m".to_string(), true, false, "sel"),
        Err(SettingsError::MissingRequiredFolder)
    );
    assert!(!settings.multiview_enabled);
    let inputs = groups(&[&["v", ""]]);
    let updated = settings.apply_inputs(&inputs, &"m".to_string(), true, true, "sel").unwrap();
    assert_eq!(updated.as_deref(), Some("sel"));
    assert!(settings.multiview_enabled);
    assert!(settings.numpad_folder_switching);
    assert_eq!(settings.mp4_folder_paths[0], vec!["v"]);
    assert_eq!(settings.active_preset.as_deref(), Some("sel"));
    let preset = settings.presets.get("sel").unwrap();
    assert_eq!(preset.mp4_folder_paths, settings.mp4_folder_paths);
    assert_eq!(preset.mp3_folder_path, "m");
    let updated = settings.apply_inputs(&inputs, &"m".to_string(), false, false, "").unwrap();
    assert_eq!(updated, None);
    assert_eq!(settings.active_preset, None);
}

#[test]
fn pressed_preset_name_takes_first_matching_preset() {
    let mut settings = AppSettings::default();
    settings.presets.insert("b".into(), FolderPreset { hotkey: Some(2), ..FolderPreset::default() });
    settings.presets.insert("a".into(), FolderPreset { hotkey: Some(1), ..FolderPreset::default() });
    assert_eq!(settings.pressed_preset_name(&vec![]), None);
    assert_eq!(settings.pressed_preset_name(&vec![2]).as_deref(), Some("b"));
    assert_eq!(settings.pressed_preset_name(&vec![2, 1]).as_deref(), Some("a"));
    assert_eq!(PRESET_FUNCTION_KEYS.len(), 10);
}

#[test]
fn groups_hold_at_most_four_folders() {
    assert_eq!(MAX_FOLDERS_PER_GROUP, 4);
    assert!(can_add_folder(0));
    assert!(can_add_folder(3));
    assert!(!can_add_folder(4));
    assert!(!can_add_folder(7));
}

#[test]
fn preset_operations_keep_hotkeys_unique() {
    let mut settings = AppSettings::default();
    settings.presets.insert("a".into(), FolderPreset { hotkey: Some(1), ..FolderPreset::default() });
    settings.presets.insert("b".into(), FolderPreset { hotkey: Some(2), ..FolderPreset::default() });
    settings.assign_preset_hotkey("b", Some(1));
    settings.save_preset("c", &empty_folder_groups(), &"m".to_string()).unwrap();
    settings.save_preset("b", &empty_folder_groups(), &"m".to_string()).unwrap();
    settings.delete_preset("a").unwrap();
    let keys: Vec<Option<u8>> = (0..settings.presets.len())
        .map(|i| settings.presets.entry(i).preset.hotkey)
        .collect();
    assert_eq!(keys, vec![Some(1), None]);

    settings.presets.insert("d".into(), FolderPreset { hotkey: Some(1), ..FolderPreset::default() });
    settings.presets.insert("e".into(), FolderPreset { hotkey: Some(5), ..FolderPreset::default() });
    let inputs = groups(&[&["v"]]);
    settings.apply_inputs(&inputs, &"m".to_string(), false, false, "").unwrap();
    let keys: Vec<Option<u8>> = (0..settings.presets.len())
        .map(|i| settings.presets.entry(i).preset.hotkey)
        .collect();
    assert_eq!(keys, vec![Some(1), None, None, None]);
}
