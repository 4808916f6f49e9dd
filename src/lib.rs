//! Indentation-based markup shorthand rendered to HTML text.
use vstd::prelude::*;

pub mod braces;
pub mod element;
pub mod parser;
pub mod render;
pub mod substitute;
pub mod template_manager;
pub mod text;

use crate::braces::{normalize_from, reformat_braces};
use crate::parser::{ParseError, from_str, parse_source};
use crate::render::{render, render_all};
use crate::substitute::{marker, replace_all, replace_text};

verus! {

broadcast use vstd::std_specs::vec::group_vec_axioms, vstd::seq::group_seq_axioms;

/// `html` with the markers of `pairs` replaced by their values, one pair after another.
pub open spec fn substitute_all(html: Seq<char>, pairs: Seq<(Seq<char>, Seq<char>)>) -> Seq<char>
    decreases pairs.len(),
{
    if pairs.len() == 0 {
        html
    } else {
        replace_all(
            substitute_all(html, pairs.drop_last()),
            marker(pairs.last().0),
            pairs.last().1,
        )
    }
}

/// The HTML text of a source, or why the source matches no forest.
pub open spec fn render_source_spec(s: Seq<char>) -> Result<Seq<char>, ParseError> {
    match parse_source(s) {
        Ok(f) => Ok(render_all(f)),
        Err(e) => Err(e),
    }
}

/// Parses a source and renders its forest.
pub fn render_source(source: &str) -> (r: Result<String, ParseError>)
    ensures
        match r {
            Ok(s) => render_source_spec(source@) == Ok::<Seq<char>, ParseError>(s@),
            Err(e) => render_source_spec(source@) == Err::<Seq<char>, ParseError>(e),
        },
{
    match from_str(source) {
        Ok(forest) => Ok(render(forest)),
        Err(e) => Err(e),
    }
}

fn marker_string(name: &str) -> (r: String)
    ensures
        r@ == marker(name@),
{
    proof {
        reveal_strlit("{{");
        reveal_strlit("}}");
        assert("{{"@ =~= seq!['{', '{']);
        assert("}}"@ =~= seq!['}', '}']);
    }
    let mut r = String::new();
    r.append("{{");
    r.append(name);
    r.append("}}");
    r
}

/// Renders a source, then replaces each `{{name}}` marker by its value, for each
/// `(name, value)` pair of `values` in order.
pub fn render_template_str(
    input: &str,
    values: &Vec<(String, String)>,
) -> (r: Result<String, ParseError>)
    ensures
        match render_source_spec(input@) {
            Ok(html) => r is Ok && r->Ok_0@ == substitute_all(html, values.deep_view()),
            Err(e) => r == Err::<String, ParseError>(e),
        },
{
    let mut html = match render_source(input) {
        Ok(h) => h,
        Err(e) => return Err(e),
    };
    let ghost base = html@;
    let mut i: usize = 0;
    while i < values.len()
        invariant
            i <= values@.len(),
            html@ == substitute_all(base, values.deep_view().take(i as int)),
        decreases values@.len() - i,
    {
        let pattern = marker_string(values[i].0.as_str());
        html = replace_text(html.as_str(), pattern.as_str(), values[i].1.as_str());
        proof {
            let done = values.deep_view().take(i as int);
            assert(values.deep_view().take(i + 1).drop_last() =~= done);
        }
        i = i + 1;
    }
    assert(values.deep_view().take(i as int) =~= values.deep_view());
    Ok(html)
}

/// Parses a source and renders it as HTML text.
pub fn render_static_template_str(input: &str) -> (r: Result<String, ParseError>)
    ensures
        match r {
            Ok(s) => render_source_spec(input@) == Ok::<Seq<char>, ParseError>(s@),
            Err(e) => render_source_spec(input@) == Err::<Seq<char>, ParseError>(e),
        },
{
    render_source(input)
}

/// The HTML text of a source with its braces normalised: each `{{name}}` marker becomes a
/// `{name}` placeholder and other braces are escaped, ready for a `{name}` substitution pass.
pub fn render_placeholders(input: &str) -> (r: Result<String, ParseError>)
    ensures
        match render_source_spec(input@) {
            Ok(html) => r is Ok && r->Ok_0@ == normalize_from(html, 0),
            Err(e) => r == Err::<String, ParseError>(e),
        },
{
    match render_source(input) {
        Ok(html) => Ok(reformat_braces(html.as_str())),
        Err(e) => Err(e),
    }
}

/// A value that renders itself as HTML text.
pub trait Template {
    fn render(&self) -> String;
}

} // verus!
