use rndwalker::listing::{media_files, name_has_extension};
use std::path::Path;

fn entries(names: &[&str]) -> Vec<(String, String)> {
    names
        .iter()
        .map(|name| (name.to_string(), format!("/dir/{name}")))
        .collect()
}

#[test]
fn extension_matches_std_path_rules() {
    let names = [
        "a.mp4", "A.MP4", "b.Mp4", "c.mp3", ".mp4", "..", "x.", "noext", "a.b.mp4", "a.mp4.bak",
        "mp4", "d.mp44", "é.MP4", "",
    ];
    for name in names {
        let expected = Path::new(name)
            .extension()
            .and_then(|ext| ext.to_str())
            .is_some_and(|ext| ext.eq_ignore_ascii_case("mp4"));
        assert_eq!(name_has_extension(name, "mp4"), expected, "{name}");
    }
}

#[test]
fn media_files_are_filtered_and_sorted_by_name() {
    let files = entries(&["b.mp4", "a.txt", "C.MP4", "a.mp4", ".mp4", "Z.Mp4", "c.mp3"]);
    assert_eq!(
        media_files(&files, "mp4"),
        vec!["/dir/C.MP4", "/dir/Z.Mp4", "/dir/a.mp4", "/dir/b.mp4"]
    );
    assert_eq!(media_files(&files, "mp3"), vec!["/dir/c.mp3"]);
    assert!(media_files(&vec![], "mp4").is_empty());
}

#[test]
fn equal_names_keep_their_order() {
    let files = vec![
        ("same.mp4".to_string(), "/first".to_string()),
        ("other.mp4".to_string(), "/other".to_string()),
        ("same.mp4".to_string(), "/second".to_string()),
    ];
    assert_eq!(media_files(&files, "mp4"), vec!["/other", "/first", "/second"]);
}
