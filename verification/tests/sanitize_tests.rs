use github_parser::sanitize::sanitize_optional_string_field;
use github_parser::sanitize::sanitize_string_field;

#[test]
fn strips_single_quote() {
    let s = String::from("O'Caml");
    assert_eq!(sanitize_string_field(&s), "OCaml");
}

#[test]
fn strips_backslash_and_nul() {
    let s = String::from("a\\b\0c");
    assert_eq!(sanitize_string_field(&s), "abc");
}

#[test]
fn keeps_every_other_character() {
    let s = String::from("héllo, wörld! \"quoted\" 123");
    assert_eq!(sanitize_string_field(&s), "héllo, wörld! \"quoted\" 123");
}

#[test]
fn sanitize_is_idempotent_on_examples() {
    for raw in ["it's a \\test\0", "plain", "'''", "\\\\", ""] {
        let once = sanitize_string_field(&String::from(raw));
        let twice = sanitize_string_field(&once);
        assert_eq!(once, twice);
    }
}

#[test]
fn strips_all_three_and_nothing_else() {
    let s = String::from("\\'x\0'y\\z");
    assert_eq!(sanitize_string_field(&s), "xyz");
}

#[test]
fn optional_field_absent_stays_absent() {
    assert_eq!(sanitize_optional_string_field(&None), None);
}

#[test]
fn optional_field_present_is_sanitized() {
    let v = Some(String::from("it's"));
    assert_eq!(sanitize_optional_string_field(&v), Some(String::from("its")));
}
