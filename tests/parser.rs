use foolhtml::element::{Attr, Cont, Elem};
use foolhtml::parser::{from_str, ParseError};

fn strings(items: &[&str]) -> Vec<String> {
    items.iter().map(|s| s.to_string()).collect()
}

fn attr(name: &str, value: &str) -> Attr {
    Attr { name: name.to_string(), value: value.to_string() }
}

#[test]
fn ast_parses_simple_tag() {
    let output = from_str("hello").unwrap();
    assert_eq!(output.len(), 1);
    assert_eq!(output[0], Elem::from_ta("hello"));
}

#[test]
fn ast_parses_two_simple_tags() {
    let output = from_str("hello\nworld").unwrap();
    assert_eq!(output.len(), 2);
    assert_eq!(output[0], Elem::from_ta("hello"));
    assert_eq!(output[1], Elem::from_ta("world"));
}

#[test]
fn ast_parses_simple_content() {
    let output = from_str("hello world").unwrap();
    let expected = Elem::from_ta_col("hello", "world");
    assert_eq!(output.len(), 1);
    assert_eq!(output[0], expected);
}

#[test]
fn ast_parses_single_child() {
    let output = from_str("hello\n  world").unwrap();
    let expected = Elem::from_ta_ch("hello", vec![Elem::from_ta("world")]);
    assert_eq!(output.len(), 1);
    assert_eq!(output[0], expected);
}

#[test]
fn ast_parses_two_children() {
    let output = from_str("hello\n  world\n  today").unwrap();
    let expected = Elem::from_ta_ch("hello", vec![Elem::from_ta("world"), Elem::from_ta("today")]);
    assert_eq!(output.len(), 1);
    assert_eq!(output[0], expected);
}

#[test]
fn ast_parses_two_level_children() {
    let output = from_str("hello\n  world\n  today\n    tomorrow\n  never").unwrap();
    let expected = Elem::from_ta_ch(
        "hello",
        vec![
            Elem::from_ta("world"),
            Elem::from_ta_ch("today", vec![Elem::from_ta("tomorrow")]),
            Elem::from_ta("never"),
        ],
    );
    assert_eq!(output.len(), 1);
    assert_eq!(output[0], expected);
}

#[test]
fn ast_parses_single_class() {
    let output = from_str("hello.world-fam").unwrap();
    assert_eq!(output, vec![Elem::from_ta_cl("hello", strings(&["world-fam"]))]);
}

#[test]
fn ast_parses_single_char_class() {
    let output = from_str("hello.w").unwrap();
    assert_eq!(output, vec![Elem::from_ta_cl("hello", strings(&["w"]))]);
}

#[test]
fn ast_parses_two_classes() {
    let output = from_str("hello.world.fam").unwrap();
    assert_eq!(output, vec![Elem::from_ta_cl("hello", strings(&["world", "fam"]))]);
}

#[test]
fn ast_parses_single_id() {
    let output = from_str("hello#world-class").unwrap();
    assert_eq!(output, vec![Elem::from_ta_id("hello", "world-class")]);
    let output = from_str("hello#world-class-nr1").unwrap();
    assert_eq!(output, vec![Elem::from_ta_id("hello", "world-class-nr1")]);
}

#[test]
fn ast_parses_single_char_id() {
    let output = from_str("hello#w").unwrap();
    assert_eq!(output, vec![Elem::from_ta_id("hello", "w")]);
}

#[test]
fn ast_parses_id_and_classes() {
    let output = from_str("hello#world.not.today").unwrap();
    assert_eq!(output, vec![Elem::from_ta_id_cl("hello", "world", strings(&["not", "today"]))]);
}

#[test]
fn ast_parses_multi_line_content() {
    let output = from_str("hello:\n  bon\n  jour").unwrap();
    assert_eq!(output, vec![Elem::from_ta_cob("hello", strings(&["bon", "jour"]))])
}

#[test]
fn ast_parses_id_and_class_on_block_el() {
    let output = from_str("hello#world.today:\n  friends").unwrap();
    assert_eq!(
        output,
        vec![Elem::from_ta_id_cl_cob("hello", "world", strings(&["today"]), strings(&["friends"]))]
    );
}

#[test]
fn ast_parses_simple_attribute() {
    let output = from_str(r#"hello world="great""#).unwrap();
    assert_eq!(output, vec![Elem::from_ta_at("hello", vec![attr("world", "great")])]);
}

#[test]
fn parses_attribute_with_single_quotes() {
    let output = from_str(r#"hello world='Mr. "Anderson"'"#).unwrap();
    assert_eq!(output, vec![Elem::from_ta_at("hello", vec![attr("world", "Mr. \"Anderson\"")])]);
}

#[test]
fn parses_naked_attribute_no_quotes() {
    let output = from_str("hello world=great").unwrap();
    assert_eq!(output, vec![Elem::from_ta_at("hello", vec![attr("world", "great")])]);
}

#[test]
fn parses_naked_attribute_with_children() {
    let output = from_str("hello world=great\n  today").unwrap();
    assert_eq!(
        output,
        vec![Elem::from_ta_at_ch("hello", vec![attr("world", "great")], vec![Elem::from_ta("today")])]
    );
}

#[test]
fn parses_naked_attribute_block() {
    let output = from_str("hello world=great:\n  good\n  morning").unwrap();
    assert_eq!(
        output,
        vec![Elem::from_ta_at_cob("hello", vec![attr("world", "great")], strings(&["good", "morning"]))]
    );
}

#[test]
fn parses_attribute_block() {
    let output = from_str("hello world=\"great day\":\n  good\n  morning").unwrap();
    assert_eq!(
        output,
        vec![Elem::from_ta_at_cob("hello", vec![attr("world", "great day")], strings(&["good", "morning"]))]
    );
}

#[test]
fn parses_bare_tag_into_a_single_empty_element() {
    let output = from_str("tag").unwrap();
    assert_eq!(output.len(), 1);
    assert_eq!(output[0].tag, "tag");
    assert_eq!(output[0].id, None);
    assert_eq!(output[0].classes, None);
    assert_eq!(output[0].attributes, None);
    assert_eq!(output[0].cont, None);
    assert_eq!(output[0].children, None);
}

#[test]
fn parses_empty_source_into_empty_forest() {
    assert_eq!(from_str("").unwrap(), Vec::<Elem>::new());
    assert_eq!(from_str("\n  \n").unwrap(), Vec::<Elem>::new());
}

#[test]
fn skips_blank_lines() {
    let output = from_str("hello\n\n  world\n   \n").unwrap();
    assert_eq!(output, vec![Elem::from_ta_ch("hello", vec![Elem::from_ta("world")])]);
}

#[test]
fn keeps_attributes_in_order_with_duplicates() {
    let output = from_str("a x=1 y='2' x=\"3\"").unwrap();
    assert_eq!(output, vec![Elem::from_ta_at("a", vec![attr("x", "1"), attr("y", "2"), attr("x", "3")])]);
}

#[test]
fn attributes_then_inline_content() {
    let output = from_str("div#title.big lang=en How are you?").unwrap();
    let mut expected = Elem::from_ta_id_cl("div", "title", strings(&["big"]));
    expected.attributes = Some(vec![attr("lang", "en")]);
    expected.cont = Some(Cont::LINE("How are you?".to_string()));
    assert_eq!(output, vec![expected]);
}

#[test]
fn block_lines_are_text_even_when_they_look_like_tags() {
    let output = from_str("p:\n  how\n  are\n  you?").unwrap();
    assert_eq!(output, vec![Elem::from_ta_cob("p", strings(&["how", "are", "you?"]))]);
}

#[test]
fn block_opener_without_lines_has_no_content() {
    let output = from_str("p:\ndiv").unwrap();
    assert_eq!(output, vec![Elem::from_ta("p"), Elem::from_ta("div")]);
}

#[test]
fn rejects_indented_first_line() {
    assert_eq!(from_str("  hello"), Err(ParseError::BadIndentation));
}

#[test]
fn rejects_odd_or_too_deep_indentation() {
    assert_eq!(from_str("hello\n world"), Err(ParseError::BadIndentation));
    assert_eq!(from_str("hello\n    world"), Err(ParseError::BadIndentation));
    assert_eq!(from_str("hello\n  world\n   today"), Err(ParseError::BadIndentation));
    assert_eq!(from_str("p:\n  a\n    b"), Err(ParseError::BadIndentation));
}

#[test]
fn rejects_children_under_inline_content() {
    assert_eq!(from_str("hello world\n  today"), Err(ParseError::BadIndentation));
}

#[test]
fn rejects_unterminated_quote() {
    assert_eq!(from_str("a title=\"open"), Err(ParseError::UnterminatedQuote));
    assert_eq!(from_str("a title='open"), Err(ParseError::UnterminatedQuote));
}

#[test]
fn rejects_unexpected_characters() {
    assert_eq!(from_str("?hello"), Err(ParseError::UnexpectedCharacter));
    assert_eq!(from_str("hello#"), Err(ParseError::UnexpectedCharacter));
    assert_eq!(from_str("hello."), Err(ParseError::UnexpectedCharacter));
    assert_eq!(from_str("hello!"), Err(ParseError::UnexpectedCharacter));
    assert_eq!(from_str("a b= c"), Err(ParseError::UnexpectedCharacter));
    assert_eq!(from_str("a b=\"c\"d"), Err(ParseError::UnexpectedCharacter));
}

#[test]
fn accepts_crlf_line_endings() {
    let output = from_str("hello\r\n  world\r\np:\r\n  text\r\n").unwrap();
    assert_eq!(
        output,
        vec![
            Elem::from_ta_ch("hello", vec![Elem::from_ta("world")]),
            Elem::from_ta_cob("p", strings(&["text"])),
        ]
    );
}
