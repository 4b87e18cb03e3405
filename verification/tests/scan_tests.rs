use amargo::scan::quoted_headers;

/// The reference directive, assembled at runtime.
fn dir_kw() -> String {
    format!("#inc{}", "lude")
}

fn header_exts() -> Vec<String> {
    vec!["h".to_string(), "hpp".to_string(), "hxx".to_string()]
}

#[test]
fn finds_simple_quoted_header() {
    let text = format!("{} \"a.h\"\nint main() {{}}\n", dir_kw());
    let names = quoted_headers(&text, &header_exts());
    assert_eq!(names, vec!["a.h".to_string()]);
}

#[test]
fn finds_header_without_space() {
    let text = format!("{}\"util.hpp\"", dir_kw());
    let names = quoted_headers(&text, &header_exts());
    assert_eq!(names, vec!["util.hpp".to_string()]);
}

#[test]
fn finds_header_with_much_whitespace() {
    let text = format!("{} \t \"deep.hxx\"", dir_kw());
    let names = quoted_headers(&text, &header_exts());
    assert_eq!(names, vec!["deep.hxx".to_string()]);
}

#[test]
fn keeps_order_of_first_occurrence() {
    let d = dir_kw();
    let text = format!("{d} \"b.h\"\n{d} \"a.h\"\n{d} \"b.h\"\n");
    let names = quoted_headers(&text, &header_exts());
    assert_eq!(names, vec!["b.h".to_string(), "a.h".to_string()]);
}

#[test]
fn ignores_unrecognized_extension() {
    let d = dir_kw();
    let text = format!("{d} \"data.txt\"\n{d} \"ok.h\"\n");
    let names = quoted_headers(&text, &header_exts());
    assert_eq!(names, vec!["ok.h".to_string()]);
}

#[test]
fn ignores_angle_bracket_form() {
    let text = format!("{} <stdio.h>\n", dir_kw());
    let names = quoted_headers(&text, &header_exts());
    assert!(names.is_empty());
}

#[test]
fn ignores_name_with_foreign_characters() {
    let text = format!("{} \"bad-name.h\"", dir_kw());
    let names = quoted_headers(&text, &header_exts());
    assert!(names.is_empty());
}

#[test]
fn accepts_word_characters_and_dots() {
    let text = format!("{} \"my_lib.v2.h\"", dir_kw());
    let names = quoted_headers(&text, &header_exts());
    assert_eq!(names, vec!["my_lib.v2.h".to_string()]);
}

#[test]
fn respects_extension_set() {
    let d = dir_kw();
    let text = format!("{d} \"a.h\"\n{d} \"b.hpp\"\n");
    let names = quoted_headers(&text, &vec!["hpp".to_string()]);
    assert_eq!(names, vec!["b.hpp".to_string()]);
}

#[test]
fn empty_text_has_no_headers() {
    let names = quoted_headers("", &header_exts());
    assert!(names.is_empty());
}

#[test]
fn directive_must_be_lowercase() {
    let text = format!("#INC{} \"a.h\"", "LUDE");
    let names = quoted_headers(&text, &header_exts());
    assert!(names.is_empty());
}

#[test]
fn finds_several_headers_in_order() {
    let d = dir_kw();
    let text = format!("// a comment\n{d} \"one.h\"\nint x;\n{d} \"two.hpp\"\n{d} \"three.hxx\"\n");
    let names = quoted_headers(&text, &header_exts());
    assert_eq!(
        names,
        vec!["one.h".to_string(), "two.hpp".to_string(), "three.hxx".to_string()]
    );
}
