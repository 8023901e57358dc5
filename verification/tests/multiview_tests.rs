use rndwalker::media::MediaLibrary;
use rndwalker::multiview::{
    initial_tile_count, MultiviewState, TileCountChange, TileLoadOutcome, TileState,
    MULTIVIEW_MAX_TILES, MULTIVIEW_RECENT_LIMIT,
};

fn s(text: &str) -> String {
    text.to_string()
}

fn library(paths: &[&str]) -> MediaLibrary {
    let mut lib = MediaLibrary::new();
    lib.mp4_sets[0] = paths.iter().map(|p| s(p)).collect();
    lib
}

fn ready(path: &str) -> TileState {
    TileState::Ready { path: s(path), replacing: false }
}

#[test]
fn initial_slots_get_distinct_videos_when_enough_exist() {
    let lib = library(&["a", "b", "c", "d"]);
    let mut state = MultiviewState::new();
    let paths = state.build_initial_multiview_slots(&lib, None, 4);
    assert_eq!(paths.len(), 4);
    let mut sorted = paths.clone();
    sorted.sort();
    assert_eq!(sorted, vec!["a", "b", "c", "d"]);
    assert_eq!(state.tiles.len(), 4);
    assert!(state.tiles.iter().all(|t| matches!(t, TileState::Loading)));
    let expected: Vec<(usize, String)> = paths.iter().cloned().enumerate().collect();
    assert_eq!(state.inflight, expected);
}

#[test]
fn initial_slots_repeat_videos_when_too_few_exist() {
    let lib = library(&["a", "b"]);
    let mut state = MultiviewState::new();
    let paths = state.build_initial_multiview_slots(&lib, Some(0), 5);
    assert_eq!(paths.len(), 5);
    assert_ne!(paths[0], paths[1]);
    assert!(paths.iter().all(|p| p == "a" || p == "b"));
}

#[test]
fn initial_slots_without_videos_are_empty() {
    let lib = library(&[]);
    let mut state = MultiviewState::new();
    state.tiles.push(ready("x"));
    state.inflight.push((0, s("y")));
    assert!(state.build_initial_multiview_slots(&lib, None, 4).is_empty());
    assert!(state.tiles.is_empty());
    assert!(state.inflight.is_empty());
}

#[test]
fn initial_tile_count_is_clamped() {
    assert_eq!(initial_tile_count(0, 5), 1);
    assert_eq!(initial_tile_count(3, 4), 12);
    assert_eq!(initial_tile_count(10, 10), MULTIVIEW_MAX_TILES);
}

#[test]
fn recent_list_is_bounded() {
    let mut state = MultiviewState::new();
    for i in 0..(MULTIVIEW_RECENT_LIMIT + 5) {
        state.push_multiview_recent(format!("v{i}"));
    }
    assert_eq!(state.recent.len(), MULTIVIEW_RECENT_LIMIT);
    assert_eq!(state.recent[0], "v5");
    assert_eq!(state.recent.last().unwrap(), &format!("v{}", MULTIVIEW_RECENT_LIMIT + 4));
    state.clear_recent();
    assert!(state.recent.is_empty());
}

#[test]
fn occupied_paths_skip_the_given_tile() {
    let mut state = MultiviewState::new();
    state.tiles = vec![ready("a"), TileState::Loading, ready("c")];
    state.inflight = vec![(1, s("b")), (2, s("d"))];
    assert_eq!(state.occupied_tile_paths(None), vec!["a", "c", "b", "d"]);
    assert_eq!(state.occupied_tile_paths(Some(2)), vec!["a", "b"]);
}

#[test]
fn tile_choice_avoids_occupied_and_recent() {
    let mut state = MultiviewState::new();
    state.push_multiview_recent(s("c"));
    let videos = vec![s("a"), s("b"), s("c"), s("d")];
    let occupied = vec![s("a"), s("b")];
    for _ in 0..20 {
        assert_eq!(state.choose_multiview_video_path(&videos, &occupied), Some(s("d")));
    }
    assert_eq!(state.choose_multiview_video_path(&vec![], &occupied), None);
}

#[test]
fn enqueue_replaces_a_tiles_earlier_load() {
    let lib = library(&["a", "b"]);
    let mut state = MultiviewState::new();
    state.tiles = vec![ready("a"), TileState::Loading];
    state.inflight = vec![(1, s("a"))];
    assert_eq!(state.enqueue_tile_load(&lib, None, 1), Some(s("b")));
    assert_eq!(state.inflight, vec![(1, s("b"))]);
    assert_eq!(state.enqueue_tile_load(&lib, Some(3), 1), None);
}

#[test]
fn finished_tiles_are_marked_once_and_replaced() {
    let lib = library(&["a", "b", "c"]);
    let mut state = MultiviewState::new();
    state.tiles = vec![ready("a"), ready("b")];
    assert_eq!(state.mark_finished(0), Some(s("a")));
    assert_eq!(state.mark_finished(0), None);
    assert_eq!(state.mark_finished(7), None);
    assert!(matches!(&state.tiles[0], TileState::Ready { replacing: true, .. }));

    let next = state.replace_finished(&lib, None, 0, s("a"));
    assert_eq!(next, Some(s("c")));
    assert_eq!(state.recent, vec!["a"]);
    assert_eq!(state.inflight, vec![(0, s("c"))]);
}

#[test]
fn replacement_without_videos_keeps_the_tile() {
    let lib = library(&[]);
    let mut state = MultiviewState::new();
    state.tiles = vec![TileState::Ready { path: s("a"), replacing: true }];
    assert_eq!(state.replace_finished(&lib, None, 0, s("a")), None);
    assert_eq!(state.tiles[0], ready("a"));
    assert!(state.inflight.is_empty());
}

#[test]
fn loaded_tile_is_installed() {
    let lib = library(&["a"]);
    let mut state = MultiviewState::new();
    state.tiles = vec![TileState::Loading];
    state.inflight = vec![(0, s("a"))];
    assert_eq!(state.on_tile_loaded(&lib, None, 0, s("a"), 0, true), TileLoadOutcome::Installed);
    assert_eq!(state.tiles[0], ready("a"));
    assert!(state.inflight.is_empty());
}

#[test]
fn load_for_a_removed_tile_is_discarded() {
    let lib = library(&["a"]);
    let mut state = MultiviewState::new();
    state.inflight = vec![(3, s("a"))];
    assert_eq!(state.on_tile_loaded(&lib, None, 3, s("a"), 0, true), TileLoadOutcome::Discarded);
    assert!(state.inflight.is_empty());
    assert!(state.tiles.is_empty());
}

#[test]
fn failed_loads_retry_then_give_up() {
    let lib = library(&["a", "b"]);
    let mut state = MultiviewState::new();
    state.tiles = vec![TileState::Loading];
    state.inflight = vec![(0, s("a"))];
    let outcome = state.on_tile_loaded(&lib, None, 0, s("a"), 0, false);
    assert_eq!(outcome, TileLoadOutcome::Retry { path: s("b"), attempts: 1 });
    assert_eq!(state.recent, vec!["a"]);
    assert_eq!(state.inflight, vec![(0, s("b"))]);

    let outcome = state.on_tile_loaded(&lib, None, 0, s("b"), 2, false);
    assert_eq!(outcome, TileLoadOutcome::GaveUp);
    assert!(state.inflight.is_empty());
    assert_eq!(state.recent, vec!["a", "b"]);
}

#[test]
fn failed_load_without_alternatives() {
    let lib = library(&[]);
    let mut state = MultiviewState::new();
    state.tiles = vec![TileState::Ready { path: s("x"), replacing: true }];
    let outcome = state.on_tile_loaded(&lib, None, 0, s("y"), 0, false);
    assert_eq!(outcome, TileLoadOutcome::NoAlternative);
    assert_eq!(state.tiles[0], ready("x"));
}

#[test]
fn tile_count_grows_and_shrinks_by_one() {
    let lib = library(&["a", "b"]);
    let mut state = MultiviewState::new();
    state.tiles = vec![ready("a")];

    let change = state.adjust_tile_count(&lib, None, true, 1);
    assert_eq!(change, TileCountChange::Added { index: 1, path: Some(s("b")) });
    assert_eq!(state.tiles.len(), 2);
    assert_eq!(state.inflight, vec![(1, s("b"))]);

    assert_eq!(state.adjust_tile_count(&lib, None, false, 2), TileCountChange::Unchanged);

    let change = state.adjust_tile_count(&lib, None, false, 1);
    assert_eq!(change, TileCountChange::Removed { was_ready: false });
    assert_eq!(state.tiles.len(), 1);
    assert!(state.inflight.is_empty());

    let change = state.adjust_tile_count(&library(&[]), None, true, 0);
    assert_eq!(change, TileCountChange::Removed { was_ready: true });
    assert!(state.tiles.is_empty());
}

#[test]
fn stopping_multiview_keeps_recent() {
    let mut state = MultiviewState::new();
    state.tiles = vec![ready("a")];
    state.inflight = vec![(0, s("b"))];
    state.push_multiview_recent(s("z"));
    state.stop_multiview();
    assert!(state.tiles.is_empty());
    assert!(state.inflight.is_empty());
    assert_eq!(state.recent, vec!["z"]);
}
