use lox::text::{chars_of, spells, string_of};

#[test]
fn characters_of_a_string() {
    assert_eq!(chars_of(""), Vec::<char>::new());
    assert_eq!(chars_of("a\u{e9}\u{1f600}z"), vec!['a', '\u{e9}', '\u{1f600}', 'z']);
}

#[test]
fn string_of_a_range_of_characters() {
    let v = chars_of("var x = \"h\u{e9}\";");
    assert_eq!(string_of(&v, 0, 3), "var");
    assert_eq!(string_of(&v, 8, 12), "\"h\u{e9}\"");
    assert_eq!(string_of(&v, 5, 5), "");
    assert_eq!(string_of(&v, 0, v.len()), "var x = \"h\u{e9}\";");
}

#[test]
fn a_range_spells_a_word() {
    let v = chars_of("if iffy");
    assert!(spells(&v, 0, 2, "if"));
    assert!(spells(&v, 3, 5, "if"));
    assert!(!spells(&v, 3, 7, "if"));
    assert!(spells(&v, 3, 7, "iffy"));
    assert!(!spells(&v, 0, 2, "of"));
    assert!(spells(&v, 2, 2, ""));
    assert!(!spells(&v, 0, 1, "if"));
}
