use rndwalker::config::FolderPreset;
use rndwalker::keys::{handle_keyboard, ordinary_key_actions, KeyAction, KeyInput};
use rndwalker::labels::{folder_label_with, prefixed, with_folder_label};
use rndwalker::overlay::{visible_group_count, Overlay, TimedMessage, INDICATOR_DURATION_MS, INFO_DURATION_MS};
use rndwalker::settings::{function_key, AppSettings, SettingsError};
use rndwalker::updater::{
    check_for_update, finish_update_check, plan_release, release_step, update_notice,
    update_status_message, ReleaseStep, UpdateMessage, BIN_NAME, REPO_NAME, REPO_OWNER,
};

fn no_keys() -> KeyInput {
    KeyInput {
        escape: false,
        f5: false,
        f11: false,
        m: false,
        w: false,
        s: false,
        d: false,
        a: false,
        left: false,
        up: false,
        right: false,
        down: false,
        digits: [false; 10],
        function_keys: vec![],
    }
}

#[test]
fn settings_window_only_listens_to_escape() {
    let settings = AppSettings::default();
    let mut keys = no_keys();
    keys.d = true;
    keys.f5 = true;
    assert!(handle_keyboard(&settings, true, false, &keys).is_empty());
    keys.escape = true;
    assert_eq!(handle_keyboard(&settings, true, false, &keys), vec![KeyAction::CloseSettings]);
}

#[test]
fn preset_hotkey_wins_over_other_keys() {
    let mut settings = AppSettings::default();
    settings.presets.insert("p".into(), FolderPreset { hotkey: Some(3), ..FolderPreset::default() });
    let mut keys = no_keys();
    keys.d = true;
    keys.function_keys = vec![3];
    assert_eq!(
        handle_keyboard(&settings, false, false, &keys),
        vec![KeyAction::ActivatePreset("p".into())]
    );
    keys.function_keys = vec![4];
    assert_eq!(handle_keyboard(&settings, false, false, &keys), vec![KeyAction::NextVideo]);
}

#[test]
fn ordinary_keys_in_order() {
    let mut keys = no_keys();
    keys.f5 = true;
    keys.f11 = true;
    keys.escape = true;
    keys.m = true;
    keys.w = true;
    keys.s = true;
    keys.d = true;
    keys.a = true;
    keys.left = true;
    keys.up = true;
    keys.right = true;
    keys.down = true;
    assert_eq!(
        ordinary_key_actions(&keys, false, false, false),
        vec![
            KeyAction::ReloadFolder,
            KeyAction::SetFullscreen(true),
            KeyAction::SetFullscreen(false),
            KeyAction::ToggleMute,
            KeyAction::VolumeUp,
            KeyAction::VolumeDown,
            KeyAction::NextVideo,
            KeyAction::PreviousVideo,
            KeyAction::SwitchFolder(Some(0)),
            KeyAction::SwitchFolder(Some(1)),
            KeyAction::SwitchFolder(Some(2)),
            KeyAction::SwitchFolder(None),
        ]
    );
}

#[test]
fn escape_leaves_fullscreen_only_when_in_it() {
    let mut keys = no_keys();
    keys.escape = true;
    assert!(ordinary_key_actions(&keys, false, false, false).is_empty());
    assert_eq!(
        ordinary_key_actions(&keys, true, false, false),
        vec![KeyAction::SetFullscreen(false)]
    );
    keys.f11 = true;
    assert_eq!(
        ordinary_key_actions(&keys, true, false, false),
        vec![KeyAction::SetFullscreen(false)]
    );
}

#[test]
fn multiview_changes_next_and_previous() {
    let mut keys = no_keys();
    keys.d = true;
    keys.a = true;
    assert_eq!(
        ordinary_key_actions(&keys, false, true, false),
        vec![KeyAction::ShuffleMultiview, KeyAction::NoPreviousInMultiview]
    );
}

#[test]
fn number_keys_switch_folders_only_when_enabled() {
    let mut keys = no_keys();
    keys.digits[0] = true;
    keys.digits[1] = true;
    keys.digits[9] = true;
    assert!(ordinary_key_actions(&keys, false, false, false).is_empty());
    assert_eq!(
        ordinary_key_actions(&keys, false, false, true),
        vec![
            KeyAction::SwitchFolder(Some(0)),
            KeyAction::SwitchFolder(Some(8)),
            KeyAction::SwitchFolder(None),
        ]
    );
}

#[test]
fn function_keys_are_f1_to_f12() {
    assert_eq!(function_key(0), None);
    assert_eq!(function_key(1), Some(1));
    assert_eq!(function_key(12), Some(12));
    assert_eq!(function_key(13), None);
}

#[test]
fn update_check_is_skipped_in_debug_builds() {
    assert_eq!(
        check_for_update(true),
        Some(UpdateMessage::Skipped("debug build: update check skipped".into()))
    );
    assert_eq!(check_for_update(false), None);
    assert_eq!((REPO_OWNER, REPO_NAME, BIN_NAME), ("dikmri", "rndWalker", "rndWalker"));
}

#[test]
fn newer_release_is_installed_by_tag() {
    assert_eq!(release_step("0.1.0", "0.2.0"), Ok(ReleaseStep::Install("v0.2.0".into())));
    assert_eq!(release_step("0.9.0", "1.0.0"), Ok(ReleaseStep::Install("v1.0.0".into())));
}

#[test]
fn same_or_older_release_keeps_current_version() {
    assert_eq!(
        release_step("0.2.0", "0.2.0"),
        Ok(ReleaseStep::Done(UpdateMessage::UpToDate("0.2.0".into())))
    );
    assert_eq!(
        release_step("0.3.0", "0.2.9"),
        Ok(ReleaseStep::Done(UpdateMessage::UpToDate("0.3.0".into())))
    );
}

#[test]
fn unparsable_versions_fail_the_check() {
    assert!(release_step("0.1.0", "latest").is_err());
    assert!(release_step("v0.1.0", "0.2.0").is_err());
    let expected = self_update::version::bump_is_greater("0.1.0", "latest")
        .unwrap_err()
        .to_string();
    assert!(!expected.is_empty());
    assert_eq!(release_step("0.1.0", "latest"), Err(expected));
}

#[test]
fn release_planning() {
    assert_eq!(plan_release("1.0.0", "2.0.0", Err("boom".into())), Err("boom".to_string()));
    assert_eq!(
        plan_release("1.0.0", "2.0.0", Ok(false)),
        Ok(ReleaseStep::Done(UpdateMessage::UpToDate("1.0.0".into())))
    );
    assert_eq!(plan_release("1.0.0", "2.0.0", Ok(true)), Ok(ReleaseStep::Install("v2.0.0".into())));
}

#[test]
fn update_messages_and_notices() {
    assert_eq!(update_status_message(true, "1.2.3"), UpdateMessage::Updated("1.2.3".into()));
    assert_eq!(update_status_message(false, "1.2.3"), UpdateMessage::UpToDate("1.2.3".into()));
    assert_eq!(finish_update_check(Err("net".into())), UpdateMessage::Failed("net".into()));
    assert_eq!(finish_update_check(Ok(UpdateMessage::Checking)), UpdateMessage::Checking);

    assert_eq!(update_notice(&UpdateMessage::Checking), None);
    assert_eq!(update_notice(&UpdateMessage::Skipped("why".into())).as_deref(), Some("why"));
    assert_eq!(
        update_notice(&UpdateMessage::UpToDate("1.0.0".into())).as_deref(),
        Some("最新バージョンです: v1.0.0")
    );
    assert_eq!(
        update_notice(&UpdateMessage::Updated("1.1.0".into())).as_deref(),
        Some("更新完了: v1.1.0. 再起動してください")
    );
    assert_eq!(
        update_notice(&UpdateMessage::Failed("x".into())).as_deref(),
        Some("更新チェック失敗: x")
    );
}

#[test]
fn overlay_messages_expire() {
    let mut overlay = Overlay::new();
    overlay.show_indicator("vol".into(), 1_000);
    overlay.show_info("hello".into(), 1_000);
    assert_eq!(overlay.indicator.as_ref().unwrap().until_ms, 1_000 + INDICATOR_DURATION_MS);
    assert_eq!(overlay.info.as_ref().unwrap().until_ms, 1_000 + INFO_DURATION_MS);

    overlay.clear_expired(2_499);
    assert!(overlay.indicator.is_some());
    overlay.clear_expired(2_500);
    assert!(overlay.indicator.is_none());
    assert!(overlay.info.is_some());
    overlay.clear_expired(3_600);
    assert!(overlay.info.is_none());

    overlay.show_info("late".into(), u64::MAX - 10);
    let TimedMessage { text, until_ms } = overlay.info.clone().unwrap();
    assert_eq!((text.as_str(), until_ms), ("late", u64::MAX));
}

#[test]
fn visible_groups_follow_numpad_switching() {
    assert_eq!(visible_group_count(false), 3);
    assert_eq!(visible_group_count(true), 9);
}

#[test]
fn label_helpers() {
    assert_eq!(with_folder_label("a: ", Some(0)), "a: フォルダ1");
    assert_eq!(folder_label_with(None, "!"), "全フォルダ!");
    assert_eq!(prefixed("x", "y"), "xy");
    assert_eq!(SettingsError::MissingRequiredFolder.message(), "MP4 Folder 1 と MP3 Folder は必須です");
}
