use foolhtml::braces::reformat_braces;
use foolhtml::parser::ParseError;
use foolhtml::render_placeholders;

#[test]
fn lib_formats_single_opening() {
    assert_eq!(reformat_braces("{"), "{{");
}

#[test]
fn lib_formats_double_opening() {
    assert_eq!(reformat_braces("{{"), "{");
}

#[test]
fn lib_formats_multiple_opening() {
    assert_eq!(reformat_braces("{{{"), "{{{{{{");
    assert_eq!(reformat_braces("{{{{"), "{{{{{{{{");
}

#[test]
fn lib_formats_single_closing() {
    assert_eq!(reformat_braces("}"), "}}");
}

#[test]
fn lib_formats_double_closing() {
    assert_eq!(reformat_braces("}}"), "}");
}

#[test]
fn lib_formats_multiple_closing() {
    assert_eq!(reformat_braces("}}}"), "}}}}}}");
    assert_eq!(reformat_braces("}}}}"), "}}}}}}}}");
}

#[test]
fn lib_formats_var() {
    assert_eq!(reformat_braces("{{hello}}"), "{hello}");
}

#[test]
fn lib_formats_open_close_pair() {
    assert_eq!(reformat_braces("{}"), "{{}}");
}

#[test]
fn keeps_other_characters() {
    assert_eq!(reformat_braces(""), "");
    assert_eq!(reformat_braces("<p>plain</p>"), "<p>plain</p>");
    assert_eq!(reformat_braces("a{b}c"), "a{{b}}c");
    assert_eq!(reformat_braces("<h1>{{name}}</h1>"), "<h1>{name}</h1>");
}

#[test]
fn drops_the_character_after_a_long_run() {
    assert_eq!(reformat_braces("{{{x"), "{{{{{{");
    assert_eq!(reformat_braces("{{{xy"), "{{{{{{y");
    assert_eq!(reformat_braces("}}}}}z!"), "}}}}}}}}}}!");
}

#[test]
fn rendered_markers_become_placeholders() {
    assert_eq!(render_placeholders("h1 Hello, {{name}}!").unwrap(), "<h1>Hello, {name}!</h1>");
    assert_eq!(render_placeholders("p a{b}").unwrap(), "<p>a{{b}}</p>");
    assert_eq!(render_placeholders("p:\n  {{x}}"), Ok("<p>{x}</p>".to_string()));
    assert_eq!(render_placeholders("p\n p"), Err(ParseError::BadIndentation));
}
