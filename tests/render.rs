use foolhtml::element::{Attr, Cont, Elem};
use foolhtml::render::{render, render_cont, render_elem};

fn attr(name: &str, value: &str) -> Attr {
    Attr { name: name.to_string(), value: value.to_string() }
}

fn strings(items: &[&str]) -> Vec<String> {
    items.iter().map(|s| s.to_string()).collect()
}

#[test]
fn renderer_renders_simple_tag() {
    assert_eq!(render(vec![Elem::from_ta("hello")]), "<hello />");
}

#[test]
fn renderer_renders_two_tags() {
    assert_eq!(render(vec![Elem::from_ta("hello"), Elem::from_ta("world")]), "<hello /><world />");
}

#[test]
fn renderer_renders_tag_cont() {
    assert_eq!(render(vec![Elem::from_ta_col("hello", "world")]), "<hello>world</hello>");
}

#[test]
fn renderer_renders_tag_children() {
    assert_eq!(
        render(vec![Elem::from_ta_ch("hello", vec![Elem::from_ta("world")])]),
        "<hello><world /></hello>"
    );
}

#[test]
fn renders_id() {
    assert_eq!(render(vec![Elem::from_ta_id("hello", "world")]), "<hello id=\"world\" />");
}

#[test]
fn renders_classes() {
    assert_eq!(
        render(vec![Elem::from_ta_cl("hello", strings(&["world", "universe"]))]),
        "<hello class=\"world universe\" />"
    );
}

#[test]
fn renders_attributes() {
    assert_eq!(
        render(vec![Elem::from_ta_at("hello", vec![attr("world", "great"), attr("sun", "shining")])]),
        "<hello world=\"great\" sun=\"shining\" />"
    );
}

#[test]
fn renders_single_quoted() {
    assert_eq!(
        render(vec![Elem::from_ta_at("img", vec![attr("Mr", "Thomas \"Neo\" Anderson")])]),
        "<img Mr='Thomas \"Neo\" Anderson' />"
    );
}

#[test]
fn renders_attributes_on_children() {
    assert_eq!(
        render(vec![Elem::from_ta_at_ch(
            "hello",
            vec![attr("world", "great")],
            vec![Elem::from_ta_at("how", vec![attr("are", "you?")])]
        )]),
        "<hello world=\"great\"><how are=\"you?\" /></hello>"
    );
}

#[test]
fn empty_element_self_closes_with_id_class_attributes_in_order() {
    let mut e = Elem::from_ta_id_cl("input", "name", strings(&["wide"]));
    e.attributes = Some(vec![attr("type", "text")]);
    assert_eq!(render_elem(&e), "<input id=\"name\" class=\"wide\" type=\"text\" />");
    let mut empty_parts = Elem::from_ta("br");
    empty_parts.cont = Some(Cont::BLOCK(Vec::new()));
    empty_parts.children = Some(Vec::new());
    assert_eq!(render_elem(&empty_parts), "<br />");
}

#[test]
fn two_classes_render_in_order() {
    let out = render_elem(&Elem::from_ta_cl("x", strings(&["a", "b"])));
    assert!(out.contains("class=\"a b\""));
    assert_eq!(out, "<x class=\"a b\" />");
}

#[test]
fn block_content_joins_with_br() {
    assert_eq!(render_cont(&Cont::BLOCK(strings(&["how", "are", "you?"]))), "how<br>are<br>you?");
    assert_eq!(render_cont(&Cont::LINE("as is".to_string())), "as is");
    assert_eq!(
        render(vec![Elem::from_ta_cob("p", strings(&["one"]))]),
        "<p>one</p>"
    );
}

#[test]
fn content_comes_before_children() {
    let mut e = Elem::from_ta_col("div", "text");
    e.children = Some(vec![Elem::from_ta("br")]);
    assert_eq!(render_elem(&e), "<div>text<br /></div>");
}

#[test]
fn empty_forest_renders_empty() {
    assert_eq!(render(Vec::new()), "");
}
