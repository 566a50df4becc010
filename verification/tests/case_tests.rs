use lingdocs::case::{kebab_ascii, upper_first, upper_first_once};

#[test]
fn upper_first_works() {
    assert_eq!(upper_first_once("abc dEF Ghi"), "Abc def ghi");

    assert_eq!(upper_first("abc dEF Ghi"), "Abc Def Ghi");
}

#[test]
fn kebab_ascii_works() {
    assert_eq!(kebab_ascii("abc DE-F 02 $*)g"), "abc-de-f-02-g")
}

#[test]
fn upper_first_once_cases() {
    assert_eq!(upper_first_once(""), "");
    assert_eq!(upper_first_once("abc"), "Abc");
    assert_eq!(upper_first_once("ABC"), "Abc");
}

#[test]
fn kebab_ascii_lowercases() {
    assert_eq!(kebab_ascii("AbC"), "abc");
    assert_eq!(kebab_ascii("Title"), "title");
    assert_eq!(kebab_ascii(""), "");
}

#[test]
fn upper_first_collapses_whitespace() {
    assert_eq!(upper_first("  a   b  "), "A B");
    assert_eq!(upper_first(""), "");
}
