use aura_core::paths::{
    episode_file_name, file_stem, part_file_name, parts_folder_name, sanitize,
};

#[test]
fn names_lose_what_a_file_system_refuses() {
    assert_eq!(sanitize("Re:Zero"), "Re -Zero");
    assert_eq!(sanitize("a<b>c\"d/e\\f|g?h*i"), "abcdefghi");
    assert_eq!(sanitize("Ep01.mp4"), "Ep01.mp4");
    assert_eq!(sanitize(""), "");
    assert_eq!(sanitize("::"), " - -");
    assert_eq!(sanitize("/home/user/Show/Ep01.mp4"), "homeuserShowEp01.mp4");
}

#[test]
fn sanitizing_twice_changes_nothing_more() {
    for name in ["Re:Zero", "a<b>c", "plain", "x: y: z", "??"] {
        let once = sanitize(name);
        assert_eq!(sanitize(&once), once);
    }
}

#[test]
fn stems_agree_with_the_standard_library() {
    for name in [
        "Ep01.mp4", "archive.tar.gz", "noext", ".hidden", "..", ".", "", "a.", "..a", "a..b",
        ".a.b", "EpPause.mp4",
    ] {
        let expected = std::path::Path::new(name)
            .file_stem()
            .unwrap_or_default()
            .to_string_lossy()
            .to_string();
        assert_eq!(file_stem(name), expected, "stem of {:?}", name);
    }
    assert_eq!(file_stem("Ep01.mp4"), "Ep01");
}

#[test]
fn part_files_have_their_folder_and_names() {
    assert_eq!(parts_folder_name("Ep01.mp4"), "Ep01.downloading");
    assert_eq!(parts_folder_name("noext"), "noext.downloading");
    assert_eq!(part_file_name(0), "part0.mp4");
    assert_eq!(part_file_name(12), "part12.mp4");
}

#[test]
fn episode_files_have_two_digits_at_least() {
    assert_eq!(episode_file_name(1), "Ep01.mp4");
    assert_eq!(episode_file_name(9), "Ep09.mp4");
    assert_eq!(episode_file_name(10), "Ep10.mp4");
    assert_eq!(episode_file_name(0), "Ep00.mp4");
    assert_eq!(episode_file_name(123), "Ep123.mp4");
    for n in [0u32, 5, 10, 99, 100, 4294967295] {
        assert_eq!(episode_file_name(n), format!("Ep{:02}.mp4", n));
    }
}
