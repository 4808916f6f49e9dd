use foolhtml::parser::{from_str, ParseError};
use foolhtml::render::render;
use foolhtml::template_manager::{TemplateManager, TemplateManagerError};
use foolhtml::{render_source, render_static_template_str, render_template_str, Template};

fn pairs(items: &[(&str, &str)]) -> Vec<(String, String)> {
    items.iter().map(|(k, v)| (k.to_string(), v.to_string())).collect()
}

#[test]
fn lib_renders_single_tag_template() {
    let output = render_static_template_str("hello").unwrap();
    assert_eq!(output, "<hello />")
}

#[test]
fn lib_renders_two_tags_template() {
    let output = render_static_template_str("br\nbr").unwrap();
    assert_eq!(output, "<br /><br />")
}

#[test]
fn lib_renders_tag_content_template() {
    let output = render_static_template_str("p hello world").unwrap();
    assert_eq!(output, "<p>hello world</p>")
}

#[test]
fn lib_renders_tag_block_content_template() {
    let output = render_static_template_str("p:\n  how\n  are\n  you?").unwrap();
    assert_eq!(output, "<p>how<br>are<br>you?</p>")
}

#[test]
fn lib_renders_tag_tag_id_attributes_content() {
    let output = render_static_template_str("div#title.big lang=en How are you?").unwrap();
    assert_eq!(output, "<div id=\"title\" class=\"big\" lang=\"en\">How are you?</div>")
}

#[test]
fn lib_renders_tag_tag_id_attributes_children() {
    let input = "div#greeting.fancy type=\"Friend's Hello\"
  p#question.informal lang=en:
    How are you, mate?";
    let output = render_static_template_str(input).unwrap();
    let expected = "<div id=\"greeting\" class=\"fancy\" type=\"Friend's Hello\">\
                      <p id=\"question\" class=\"informal\" lang=\"en\">How are you, mate?</p>\
                      </div>";
    assert_eq!(output, expected)
}

#[test]
fn lib_renders_complex_static_template_str() {
    let input = "h1#title.fancy.large Hello World
div
  img#title-image src=\"images/title.jpg\" width=1000 height=300 alt=\"A great title image.\"";
    let output = render_static_template_str(input).unwrap();
    let expected = "<h1 id=\"title\" class=\"fancy large\">Hello World</h1>\
                    <div>\
                    <img id=\"title-image\" src=\"images/title.jpg\" width=\"1000\" height=\"300\" alt=\"A great title image.\" />\
                    </div>";
    assert_eq!(output, expected)
}

#[test]
fn renders_variables() {
    let map = pairs(&[("first_name", "John"), ("last_name", "Smith")]);
    let rendered = render_template_str("h1 Hello, {{first_name}} {{last_name}}!", &map).unwrap();
    assert_eq!(rendered, "<h1>Hello, John Smith!</h1>")
}

#[test]
fn parse_then_render_keeps_depth_first_sibling_order() {
    let forest = from_str("a\n  b\n  c").unwrap();
    assert_eq!(render(forest), "<a><b /><c /></a>");
}

#[test]
fn render_source_reports_parse_errors() {
    assert_eq!(render_source("a\n   b"), Err(ParseError::BadIndentation));
    assert_eq!(render_static_template_str("a x='y"), Err(ParseError::UnterminatedQuote));
    assert_eq!(render_template_str("%", &Vec::new()), Err(ParseError::UnexpectedCharacter));
}

#[test]
fn substitution_leaves_unknown_markers_and_replaces_every_occurrence() {
    let map = pairs(&[("a", "1")]);
    assert_eq!(render_template_str("p {{a}}{{a}} {{b}}", &map).unwrap(), "<p>11 {{b}}</p>");
    assert_eq!(render_template_str("p {{a}}", &Vec::new()).unwrap(), "<p>{{a}}</p>");
}

struct Title {
    arg: String,
}

impl Template for Title {
    fn render(&self) -> String {
        render_template_str("h1 {{arg}}", &pairs(&[("arg", &self.arg)])).unwrap()
    }
}

struct Name<'a> {
    first: &'a str,
    last: &'a str,
}

impl<'a> Template for Name<'a> {
    fn render(&self) -> String {
        let values = pairs(&[("first", self.first), ("last", self.last)]);
        render_template_str("h1 Hello Mr. {{first}} {{last}}", &values).unwrap()
    }
}

#[test]
fn renders_single_var() {
    let t = Title { arg: "hello".into() };
    assert_eq!(t.render(), "<h1>hello</h1>");
}

#[test]
fn renders_two_vars() {
    let n = Name { first: "John", last: "Smith" };
    assert_eq!(n.render(), "<h1>Hello Mr. John Smith</h1>");
}

#[test]
fn handles_lifetimes() {
    struct Borrowed<'a> {
        arg: &'a str,
    }
    impl<'a> Template for Borrowed<'a> {
        fn render(&self) -> String {
            render_template_str("h1 {{arg}}", &pairs(&[("arg", self.arg)])).unwrap()
        }
    }
    let t = Borrowed { arg: "hello" };
    assert_eq!(t.render(), "<h1>hello</h1>");
}

#[test]
fn reads_fhtml_file() {
    let mut manager = TemplateManager::default();
    manager.add("testing/templates/basic_tag.fhtml".to_string(), "h1 Hello {{name}}".to_string());
    let source = manager.get("testing/templates/basic_tag.fhtml").unwrap();
    let rendered = render_template_str(&source, &pairs(&[("name", "World")])).unwrap();
    assert_eq!(rendered, "<h1>Hello World</h1>");
}

#[test]
fn can_add_and_retrieve() {
    let mut manager = TemplateManager::default();
    manager.add("path".to_string(), "hello world".to_string());
    assert_eq!("hello world".to_string(), manager.get("path").unwrap());
}

#[test]
fn returns_error_on_invalid_path() {
    let mut manager = TemplateManager::default();
    let expected = TemplateManagerError::TemplateNotFound;
    let result = manager.get("hello/").err().unwrap();
    assert_eq!(expected, result);
}

#[test]
fn later_add_replaces_earlier_source() {
    let mut manager = TemplateManager::default();
    manager.add("p".to_string(), "one".to_string());
    manager.add("q".to_string(), "two".to_string());
    manager.add("p".to_string(), "three".to_string());
    assert_eq!(manager.get("p").unwrap(), "three");
    assert_eq!(manager.get("q").unwrap(), "two");
}
