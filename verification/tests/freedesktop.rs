use baelyks_notification_server::freedesktop::{
    first_icon, icon_path_candidate, icon_theme, random_name, tmp_path_for, tmp_path_step,
    TmpPathStep, ICON_SIZE, TMP_NAME_LENGTH, TMP_PATH_TRIES,
};

#[test]
fn the_scheme_is_taken_out_of_a_path() {
    assert_eq!(icon_path_candidate("file:///usr/share/icons/a.png"), "/usr/share/icons/a.png");
    assert_eq!(icon_path_candidate("/usr/share/icons/a.png"), "/usr/share/icons/a.png");
    assert_eq!(icon_path_candidate("firefox"), "firefox");
    assert_eq!(icon_path_candidate(""), "");
}

#[test]
fn the_scheme_is_taken_out_wherever_it_occurs() {
    assert_eq!(icon_path_candidate("a/file://b/file://c"), "a/b/c");
    assert_eq!(icon_path_candidate("file://file://x"), "x");
    // What is left is not searched again.
    assert_eq!(icon_path_candidate("file:file:////"), "file://");
    assert_eq!(icon_path_candidate("file:/file:/"), "file:/file:/");
    assert_eq!(icon_path_candidate("fifile://le://x"), "file://x");
    assert_eq!(icon_path_candidate("file:/"), "file:/");
    assert_eq!(icon_path_candidate("caf\u{e9}file://\u{65e5}"), "caf\u{e9}\u{65e5}");
}

#[test]
fn the_scheme_is_taken_out_as_the_standard_library_does() {
    for text in ["file://", "xfile://y", "file:/file://", "ffile://ile://", "file://file:/", "//file://"] {
        assert_eq!(icon_path_candidate(text), text.replace("file://", ""));
    }
}

#[test]
fn temporary_paths() {
    assert_eq!(tmp_path_for("a1B2c3D4"), "/tmp/a1B2c3D4.png");
    assert_eq!(tmp_path_for(""), "/tmp/.png");
    assert_eq!(TMP_PATH_TRIES, 3);
}

#[test]
fn random_names_are_eight_letters_and_digits() {
    assert_eq!(TMP_NAME_LENGTH, 8);
    for _ in 0..200 {
        let name = random_name();
        assert_eq!(name.chars().count(), 8);
        assert!(name.chars().all(|c| c.is_ascii_alphanumeric()), "name: {:?}", name);
    }
}

#[test]
fn random_names_vary() {
    let names: std::collections::HashSet<String> = (0..50).map(|_| random_name()).collect();
    assert!(names.len() > 1);
}

#[test]
fn a_free_path_is_used_and_a_taken_one_tried_again_twice() {
    assert_eq!(tmp_path_step(1, true), TmpPathStep::Use);
    assert_eq!(tmp_path_step(3, true), TmpPathStep::Use);
    assert_eq!(tmp_path_step(1, false), TmpPathStep::Retry);
    assert_eq!(tmp_path_step(2, false), TmpPathStep::Retry);
    assert_eq!(tmp_path_step(3, false), TmpPathStep::GiveUp);
    assert_eq!(tmp_path_step(4, false), TmpPathStep::GiveUp);
}

#[test]
fn the_first_icon_that_is_there() {
    assert_eq!(first_icon("path", true, Some("svg"), Some("png")), Some("path"));
    assert_eq!(first_icon("path", true, None, None), Some("path"));
    assert_eq!(first_icon("path", false, Some("svg"), Some("png")), Some("svg"));
    assert_eq!(first_icon("path", false, None, Some("png")), Some("png"));
    assert_eq!(first_icon("path", false, Some("svg"), None), Some("svg"));
    assert_eq!(first_icon("path", false, None, None), None);
}

#[test]
fn where_icons_are_looked_up() {
    assert_eq!(icon_theme(), "Gruvbox-Plus-Dark");
    assert_eq!(ICON_SIZE, 100);
}
