use baelyks_notification_server::text::{chars_of, string_of};

#[test]
fn characters_of_a_string() {
    assert_eq!(chars_of("a\u{e9}\u{65e5}"), vec!['a', '\u{e9}', '\u{65e5}']);
    assert_eq!(chars_of(""), Vec::<char>::new());
}

#[test]
fn string_of_characters() {
    assert_eq!(string_of(&['a', '\u{e9}', '\u{65e5}']), "a\u{e9}\u{65e5}");
    assert_eq!(string_of(&[]), "");
}
