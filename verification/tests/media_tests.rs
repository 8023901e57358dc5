use rndwalker::media::{
    choose_random_path, choose_random_path_avoiding_recent, path_at, recent_avoiding_candidates,
    scan_plan, MediaLibrary,
};
use rndwalker::settings::AppSettings;

fn path(name: &str) -> String {
    name.to_string()
}

#[test]
fn avoiding_recent_excludes_last_three_when_possible() {
    let paths = vec![path("a.mp4"), path("b.mp4"), path("c.mp4"), path("d.mp4")];
    let recent = vec![path("c.mp4"), path("b.mp4"), path("a.mp4")];

    assert_eq!(
        choose_random_path_avoiding_recent(&paths, &recent, 3),
        Some(path("d.mp4"))
    );
}

#[test]
fn avoiding_recent_relaxes_exclusion_for_small_libraries() {
    let paths = vec![path("a.mp4"), path("b.mp4")];
    let recent = vec![path("a.mp4"), path("b.mp4")];

    assert_eq!(
        choose_random_path_avoiding_recent(&paths, &recent, 3),
        Some(path("b.mp4"))
    );
}

#[test]
fn avoiding_recent_with_nothing_to_choose_from() {
    assert_eq!(choose_random_path_avoiding_recent(&vec![], &vec![path("a")], 3), None);
    assert_eq!(choose_random_path(&vec![]), None);
}

#[test]
fn avoiding_recent_falls_back_to_any_path() {
    let paths = vec![path("a")];
    let recent = vec![path("a")];
    assert_eq!(choose_random_path_avoiding_recent(&paths, &recent, 3), Some(path("a")));
}

#[test]
fn avoiding_recent_only_considers_max_recent() {
    let paths = vec![path("a"), path("b")];
    let recent = vec![path("a"), path("b")];
    for _ in 0..20 {
        assert_eq!(choose_random_path_avoiding_recent(&paths, &recent, 1), Some(path("b")));
    }
}

#[test]
fn random_choice_is_always_one_of_the_paths() {
    let paths = vec![path("x"), path("y"), path("z")];
    for _ in 0..50 {
        let chosen = choose_random_path(&paths).unwrap();
        assert!(paths.contains(&chosen));
    }
}

fn library() -> MediaLibrary {
    let mut lib = MediaLibrary::new();
    lib.mp4_sets[0] = vec![path("a1"), path("a2")];
    lib.mp4_sets[2] = vec![path("c1")];
    lib
}

#[test]
fn active_videos_by_group_or_all() {
    let lib = library();
    assert_eq!(lib.active_videos(Some(0)), vec!["a1", "a2"]);
    assert_eq!(lib.active_videos(Some(1)), Vec::<String>::new());
    assert_eq!(lib.active_videos(Some(42)), Vec::<String>::new());
    assert_eq!(lib.active_videos(None), vec!["a1", "a2", "c1"]);
    assert_eq!(lib.active_video_count(None), 3);
    assert_eq!(lib.active_video_count(Some(2)), 1);
    assert_eq!(lib.active_video_count(Some(9)), 0);
    assert_eq!(lib.non_empty_group_count(), 2);
    assert_eq!(MediaLibrary::default().non_empty_group_count(), 0);
}

#[test]
fn scan_plan_trims_and_skips_blank_folders() {
    let mut settings = AppSettings::default();
    settings.mp4_folder_paths[0] = vec![path("  /v "), path("   "), path("/w")];
    settings.mp3_folder_path = path(" /m ");
    let plan = scan_plan(&settings);
    assert_eq!(plan.video_folders.len(), 9);
    assert_eq!(plan.video_folders[0], vec!["/v", "/w"]);
    assert!(plan.video_folders[1].is_empty());
    assert_eq!(plan.audio_folder.as_deref(), Some(" /m "));
    settings.mp3_folder_path = path("\t");
    assert_eq!(scan_plan(&settings).audio_folder, None);
}

#[test]
fn library_from_scans_concatenates_folders() {
    let scans = vec![
        vec![vec![path("a")], vec![path("b"), path("c")]],
        vec![],
    ];
    let lib = MediaLibrary::from_scans(&scans, vec![path("m.mp3")]);
    assert_eq!(lib.mp4_sets.len(), 9);
    assert_eq!(lib.mp4_sets[0], vec!["a", "b", "c"]);
    assert!(lib.mp4_sets[1].is_empty());
    assert!(lib.mp4_sets[8].is_empty());
    assert_eq!(lib.mp3_files, vec!["m.mp3"]);
}

#[test]
fn candidates_relax_the_exclusion_until_something_is_left() {
    let paths = vec![path("a"), path("b"), path("c"), path("d")];
    let recent = vec![path("c"), path("b"), path("a")];
    assert_eq!(recent_avoiding_candidates(&paths, &recent, 3), vec!["d"]);
    assert_eq!(recent_avoiding_candidates(&paths, &recent, 1), vec!["a", "b", "d"]);
    assert_eq!(recent_avoiding_candidates(&paths, &recent, 0), vec!["a", "b", "c", "d"]);
    let small = vec![path("a"), path("b")];
    let all_recent = vec![path("a"), path("b")];
    assert_eq!(recent_avoiding_candidates(&small, &all_recent, 3), vec!["b"]);
    assert_eq!(recent_avoiding_candidates(&vec![path("a")], &vec![path("a")], 3), vec!["a"]);
    assert_eq!(path_at(&paths, 2), "c");
}

#[test]
fn video_count_is_the_length_of_the_video_list() {
    let lib = library();
    for folder in [None, Some(0), Some(1), Some(2), Some(8), Some(9), Some(usize::MAX)] {
        assert_eq!(lib.active_video_count(folder), lib.active_videos(folder).len());
    }
}
