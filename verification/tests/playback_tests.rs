use rndwalker::media::MediaLibrary;
use rndwalker::playback::{
    folder_switch_message, reload_action, remaining_ms, resume_prepared, service_preload,
    should_preload, single_video_done, video_finished, Advance, FolderSwitch, PlaybackState,
    PlayerPhase, PreloadAction, PreloadState, PreviousVideo, ReloadAction,
};

fn s(text: &str) -> String {
    text.to_string()
}

fn library_with(groups: &[&[&str]]) -> MediaLibrary {
    let mut lib = MediaLibrary::new();
    for (i, g) in groups.iter().enumerate() {
        lib.mp4_sets[i] = g.iter().map(|p| s(p)).collect();
    }
    lib
}

#[test]
fn history_keeps_order_and_previous_steps_back() {
    let mut state = PlaybackState::new();
    assert_eq!(state.previous_video(), PreviousVideo::NoHistory);
    state.record_started(&s("a"), true);
    state.record_started(&s("b"), true);
    state.record_started(&s("c"), true);
    assert_eq!(state.history, vec!["a", "b", "c"]);
    assert_eq!(state.history_index, Some(2));
    assert_eq!(state.current_video.as_deref(), Some("c"));

    assert_eq!(state.previous_video(), PreviousVideo::Load(s("b")));
    assert_eq!(state.history_index, Some(1));
    // playing the earlier entry again does not touch the history
    state.record_started(&s("b"), false);
    assert_eq!(state.history, vec!["a", "b", "c"]);

    assert_eq!(state.previous_video(), PreviousVideo::Load(s("a")));
    assert_eq!(state.previous_video(), PreviousVideo::NoHistory);
    assert_eq!(state.history_index, Some(0));
}

#[test]
fn playing_a_new_video_after_going_back_drops_later_entries() {
    let mut state = PlaybackState::new();
    for p in ["a", "b", "c"] {
        state.record_started(&s(p), true);
    }
    state.previous_video();
    state.previous_video();
    state.record_started(&s("d"), true);
    assert_eq!(state.history, vec!["a", "d"]);
    assert_eq!(state.history_index, Some(1));
}

#[test]
fn recent_paths_are_newest_first_and_at_most_three() {
    let mut state = PlaybackState::new();
    assert!(state.recent_video_paths().is_empty());
    for p in ["a", "b", "c", "d", "e"] {
        state.record_started(&s(p), true);
    }
    assert_eq!(state.recent_video_paths(), vec!["e", "d", "c"]);
    state.previous_video();
    state.previous_video();
    state.previous_video();
    assert_eq!(state.recent_video_paths(), vec!["b", "a"]);
}

#[test]
fn next_video_avoids_recent_ones() {
    let mut state = PlaybackState::new();
    for p in ["a", "b", "c"] {
        state.record_started(&s(p), true);
    }
    let videos = vec![s("a"), s("b"), s("c"), s("d")];
    for _ in 0..20 {
        assert_eq!(state.choose_next_video_path(&videos), Some(s("d")));
    }
    assert_eq!(state.choose_next_video_path(&vec![]), None);
}

#[test]
fn loader_generations_and_single_requests() {
    let mut state = PlaybackState::new();
    assert!(state.is_current_generation(0));
    state.bump_loader_generation();
    assert!(!state.is_current_generation(0));
    assert!(state.is_current_generation(1));

    let first = state.begin_single_load();
    let second = state.begin_single_load();
    assert_eq!((first, second), (0, 1));
    assert!(!state.accept_single_result(first));
    assert!(state.accept_single_result(second));
    assert!(!state.accept_single_result(second));
    assert_eq!(state.pending_single, None);
}

#[test]
fn generation_counter_wraps_around() {
    let mut state = PlaybackState::new();
    state.loader_generation = u64::MAX;
    state.bump_loader_generation();
    assert_eq!(state.loader_generation, 0);
}

#[test]
fn preload_is_planned_once_for_the_target_folder() {
    let lib = library_with(&[&["a"], &["b"]]);
    let mut state = PlaybackState::new();
    state.pending_folder = Some(Some(1));
    assert_eq!(state.plan_preload(&lib), Some((s("b"), Some(1))));
    assert!(state.queued_in_flight);
    assert_eq!(state.plan_preload(&lib), None);

    state.on_queued_loaded(Some(1), true);
    assert!(state.has_queued_video);
    assert_eq!(state.queued_video_folder, Some(1));
    assert!(!state.queued_in_flight);
    assert_eq!(state.plan_preload(&lib), None);
}

#[test]
fn preload_without_videos_changes_nothing() {
    let lib = library_with(&[&[], &["b"]]);
    let mut state = PlaybackState::new();
    state.active_folder = Some(0);
    assert_eq!(state.plan_preload(&lib), None);
    assert!(!state.queued_in_flight);
}

#[test]
fn advancing_uses_the_preload_only_for_the_active_folder() {
    let mut state = PlaybackState::new();
    state.on_queued_loaded(None, true);
    assert_eq!(state.advance_after_video_finished(), (Advance::StartQueued, None));
    assert!(!state.has_queued_video);

    state.on_queued_loaded(None, true);
    state.pending_folder = Some(Some(2));
    assert_eq!(state.advance_after_video_finished(), (Advance::PlayNext, Some(Some(2))));
    assert_eq!(state.active_folder, Some(2));
    assert!(!state.has_queued_video);

    state.begin_single_load();
    assert_eq!(state.advance_after_video_finished(), (Advance::Wait, None));
}

#[test]
fn folder_switch_outcomes() {
    let lib = library_with(&[&["a"], &[], &["c"]]);
    let mut state = PlaybackState::new();

    assert_eq!(state.switch_folder(&lib, Some(1), false), FolderSwitch::Empty);
    assert_eq!(state.switch_folder(&lib, Some(20), false), FolderSwitch::Empty);
    assert_eq!(state.pending_folder, None);

    state.on_queued_loaded(None, true);
    assert_eq!(state.switch_folder(&lib, Some(2), false), FolderSwitch::Deferred);
    assert_eq!(state.pending_folder, Some(Some(2)));
    assert_eq!(state.active_folder, None);
    assert!(!state.has_queued_video);

    assert_eq!(state.switch_folder(&lib, Some(0), true), FolderSwitch::Immediate);
    assert_eq!(state.active_folder, Some(0));
    assert_eq!(state.pending_folder, None);
    assert_eq!(state.loader_generation, 1);

    let single = library_with(&[&["a"]]);
    assert_eq!(state.switch_folder(&single, None, true), FolderSwitch::Ignored);
    assert_eq!(state.active_folder, Some(0));
}

#[test]
fn folder_switch_messages() {
    assert_eq!(folder_switch_message(FolderSwitch::Ignored, Some(0)), None);
    assert_eq!(
        folder_switch_message(FolderSwitch::Empty, Some(1)).as_deref(),
        Some("フォルダ2 は空です")
    );
    assert_eq!(
        folder_switch_message(FolderSwitch::Immediate, None).as_deref(),
        Some("再生対象: 全フォルダ")
    );
    assert_eq!(
        folder_switch_message(FolderSwitch::Deferred, Some(8)).as_deref(),
        Some("次から: フォルダ9")
    );
}

#[test]
fn reset_for_reload_forgets_history_and_loads() {
    let mut state = PlaybackState::new();
    state.record_started(&s("a"), true);
    state.active_folder = Some(3);
    state.pending_folder = Some(None);
    state.on_queued_loaded(Some(3), true);
    state.begin_single_load();
    state.reset_for_reload();
    assert!(state.history.is_empty());
    assert_eq!(state.history_index, None);
    assert_eq!(state.active_folder, None);
    assert_eq!(state.pending_folder, None);
    assert!(!state.has_queued_video);
    assert_eq!(state.pending_single, None);
    assert_eq!(state.loader_generation, 1);
    assert_eq!(state.current_video.as_deref(), Some("a"));
    state.stop_video();
    assert_eq!(state.current_video, None);
}

#[test]
fn reload_actions() {
    assert_eq!(reload_action(3, true), ReloadAction::StartMultiview);
    assert_eq!(reload_action(3, false), ReloadAction::PlayNext);
    assert_eq!(reload_action(0, true), ReloadAction::NoVideos);
}

#[test]
fn remaining_time_saturates() {
    assert_eq!(remaining_ms(10_000, 7_500), 2_500);
    assert_eq!(remaining_ms(i64::MIN, 1), i64::MIN);
    assert_eq!(remaining_ms(i64::MAX, -1), i64::MAX);
}

#[test]
fn preload_starts_near_the_end() {
    assert!(!should_preload(10_000, 7_499));
    assert!(should_preload(10_000, 7_500));
    assert!(!should_preload(0, 0));
}

#[test]
fn finish_detection() {
    assert!(video_finished(0, 0, PlayerPhase::EndOfFile, PlayerPhase::Playing));
    assert!(video_finished(0, 0, PlayerPhase::Playing, PlayerPhase::EndOfFile));
    assert!(video_finished(5_000, 10, PlayerPhase::Playing, PlayerPhase::Stopped));
    assert!(!video_finished(5_000, 0, PlayerPhase::Playing, PlayerPhase::Stopped));
    assert!(!video_finished(5_000, 10, PlayerPhase::Playing, PlayerPhase::Playing));

    assert!(single_video_done(5_000, 4_970, PlayerPhase::Playing, PlayerPhase::Playing, true));
    assert!(!single_video_done(5_000, 4_969, PlayerPhase::Playing, PlayerPhase::Playing, true));
    assert!(!single_video_done(5_000, 4_990, PlayerPhase::Playing, PlayerPhase::Playing, false));
}

#[test]
fn preload_warm_up_steps() {
    assert_eq!(
        service_preload(PreloadState::Warming, 139, 0, PlayerPhase::Playing),
        (PreloadState::Warming, PreloadAction::Nothing)
    );
    assert_eq!(
        service_preload(PreloadState::Warming, 140, 0, PlayerPhase::Playing),
        (PreloadState::SeekingToStart, PreloadAction::PauseAndRewind)
    );
    assert_eq!(
        service_preload(PreloadState::Warming, 0, 700, PlayerPhase::Playing),
        (PreloadState::SeekingToStart, PreloadAction::PauseAndRewind)
    );
    assert_eq!(
        service_preload(PreloadState::SeekingToStart, 0, 0, PlayerPhase::Playing),
        (PreloadState::SeekingToStart, PreloadAction::Nothing)
    );
    assert_eq!(
        service_preload(PreloadState::SeekingToStart, 0, 0, PlayerPhase::Paused),
        (PreloadState::Ready, PreloadAction::Nothing)
    );
    assert_eq!(
        service_preload(PreloadState::Cold, 500, 900, PlayerPhase::Paused),
        (PreloadState::Cold, PreloadAction::Nothing)
    );
}

#[test]
fn prepared_videos_resume_only_when_warmed_briefly() {
    assert!(resume_prepared(PreloadState::Ready, 10_000));
    assert!(resume_prepared(PreloadState::Warming, 280));
    assert!(!resume_prepared(PreloadState::Warming, 281));
    assert!(!resume_prepared(PreloadState::Cold, 0));
    assert!(!resume_prepared(PreloadState::SeekingToStart, 0));
}
