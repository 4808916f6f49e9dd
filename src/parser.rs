//! The markup grammar. A source is a sequence of lines; blank lines are ignored. Each
//! element line is
//!
//! ```text
//! indent tag [#id] {.class} {spaces name=value} [spaces content | :]
//! ```
//!
//! where the indent is two spaces per nesting level, names are made of ASCII letters,
//! digits, `-` and `_`, and a value is naked (up to a space, or up to a final `:`), or
//! enclosed in double or single quotes. A line that ends in `:` opens a block: the lines
//! under it are its text. A line without content takes the elements under it as children.
use vstd::prelude::*;
use crate::element::{
    Attr, AttrModel, Cont, ContModel, Elem, ElemModel, attrs_view, elem_wf, elems_view, forest_wf,
    lemma_elems_view_push,
};
use crate::text::{chars_of, lemma_run_end_bounds, run_end, scan_run, substring};

verus! {

broadcast use vstd::std_specs::vec::group_vec_axioms, vstd::seq::group_seq_axioms;

/// Why a source does not match the grammar.
#[derive(PartialEq, Eq, Debug, Clone, Copy, Structural)]
pub enum ParseError {
    /// A line is indented by other than two more spaces than its parent, or an element
    /// with inline content has lines under it.
    BadIndentation,
    /// A quoted attribute value has no closing quote on its line.
    UnterminatedQuote,
    /// A character where the grammar allows none of its kind.
    UnexpectedCharacter,
}

/// What follows the attributes of an element line.
pub enum BodyModel {
    Plain,
    Inline(Seq<char>),
    Block,
}

pub open spec fn is_name_char(c: char) -> bool {
    let u = c as u32;
    (97 <= u && u <= 122) || (65 <= u && u <= 90) || (48 <= u && u <= 57) || c == '-' || c == '_'
}

/// The end of the name that starts at `i`.
pub open spec fn name_end(t: Seq<char>, i: int) -> int
    decreases t.len() - i,
{
    if 0 <= i < t.len() && is_name_char(t[i]) {
        name_end(t, i + 1)
    } else {
        i
    }
}

/// The first position at or after `i` that holds `q`, or the length.
pub open spec fn find_char(t: Seq<char>, i: int, q: char) -> int
    decreases t.len() - i,
{
    if 0 <= i < t.len() && t[i] != q {
        find_char(t, i + 1, q)
    } else {
        i
    }
}

/// The end of a naked value that starts at `i`: a space, a `:` that ends the line, or the
/// end of the line.
pub open spec fn naked_end(t: Seq<char>, i: int) -> int
    decreases t.len() - i,
{
    if 0 <= i < t.len() && t[i] != ' ' && !(t[i] == ':' && i + 1 == t.len()) {
        naked_end(t, i + 1)
    } else {
        i
    }
}

/// The `.class` segments from `i` on, appended to `acc`, and the position after them.
pub open spec fn classes_from(t: Seq<char>, i: int, acc: Seq<Seq<char>>) -> Result<
    (Seq<Seq<char>>, int),
    ParseError,
>
    decreases t.len() - i,
    via classes_from_decreases
{
    if 0 <= i < t.len() && t[i] == '.' {
        let e = name_end(t, i + 1);
        if e == i + 1 {
            Err(ParseError::UnexpectedCharacter)
        } else {
            classes_from(t, e, acc.push(t.subrange(i + 1, e)))
        }
    } else {
        Ok((acc, i))
    }
}

/// The attributes from `i` on, appended to `acc`, and what ends the line.
pub open spec fn tail_from(t: Seq<char>, i: int, acc: Seq<AttrModel>) -> Result<
    (Seq<AttrModel>, BodyModel),
    ParseError,
>
    decreases t.len() - i,
    via tail_from_decreases
{
    if i < 0 || i >= t.len() {
        Ok((acc, BodyModel::Plain))
    } else if t[i] == ':' && i + 1 == t.len() {
        Ok((acc, BodyModel::Block))
    } else if t[i] != ' ' {
        Err(ParseError::UnexpectedCharacter)
    } else {
        let r = run_end(t, i, ' ');
        let ne = name_end(t, r);
        if r >= t.len() {
            Ok((acc, BodyModel::Plain))
        } else if ne > r && ne < t.len() && t[ne] == '=' {
            let v = ne + 1;
            let name = t.subrange(r, ne);
            if v < t.len() && (t[v] == '"' || t[v] == '\'') {
                let close = find_char(t, v + 1, t[v]);
                if close >= t.len() {
                    Err(ParseError::UnterminatedQuote)
                } else {
                    tail_from(
                        t,
                        close + 1,
                        acc.push(AttrModel { name, value: t.subrange(v + 1, close) }),
                    )
                }
            } else {
                let ve = naked_end(t, v);
                if ve == v {
                    Err(ParseError::UnexpectedCharacter)
                } else {
                    tail_from(t, ve, acc.push(AttrModel { name, value: t.subrange(v, ve) }))
                }
            }
        } else {
            Ok((acc, BodyModel::Inline(t.subrange(r, t.len() as int))))
        }
    }
}

pub proof fn lemma_name_end_bounds(t: Seq<char>, i: int)
    requires
        0 <= i <= t.len(),
    ensures
        i <= name_end(t, i) <= t.len(),
    decreases t.len() - i,
{
    if i < t.len() && is_name_char(t[i]) {
        lemma_name_end_bounds(t, i + 1);
    }
}

pub proof fn lemma_find_char_bounds(t: Seq<char>, i: int, q: char)
    requires
        0 <= i <= t.len(),
    ensures
        i <= find_char(t, i, q) <= t.len(),
    decreases t.len() - i,
{
    if i < t.len() && t[i] != q {
        lemma_find_char_bounds(t, i + 1, q);
    }
}

pub proof fn lemma_naked_end_bounds(t: Seq<char>, i: int)
    requires
        0 <= i <= t.len(),
    ensures
        i <= naked_end(t, i) <= t.len(),
    decreases t.len() - i,
{
    if i < t.len() && t[i] != ' ' && !(t[i] == ':' && i + 1 == t.len()) {
        lemma_naked_end_bounds(t, i + 1);
    }
}

#[via_fn]
proof fn classes_from_decreases(t: Seq<char>, i: int, acc: Seq<Seq<char>>) {
    if 0 <= i < t.len() {
        lemma_name_end_bounds(t, i + 1);
    }
}

#[via_fn]
proof fn tail_from_decreases(t: Seq<char>, i: int, acc: Seq<AttrModel>) {
    if 0 <= i < t.len() {
        lemma_run_end_bounds(t, i, ' ');
        let r = run_end(t, i, ' ');
        if r < t.len() {
            lemma_name_end_bounds(t, r);
            let ne = name_end(t, r);
            if ne + 1 < t.len() {
                lemma_find_char_bounds(t, ne + 2, t[ne + 1]);
            }
            if ne < t.len() {
                lemma_naked_end_bounds(t, ne + 1);
            }
        }
    }
}

pub open spec fn opt_seq<A>(s: Seq<A>) -> Option<Seq<A>> {
    if s.len() == 0 {
        None
    } else {
        Some(s)
    }
}

/// An element line (its indent included) read as the element's head, with no content
/// and no children yet, and what ends the line.
pub open spec fn line_head(t: Seq<char>) -> Result<(ElemModel, BodyModel), ParseError> {
    let ind = run_end(t, 0, ' ');
    let te = name_end(t, ind);
    let has_id = te < t.len() && t[te] == '#';
    let p = if has_id {
        name_end(t, te + 1)
    } else {
        te
    };
    if te == ind || (has_id && p == te + 1) {
        Err(ParseError::UnexpectedCharacter)
    } else {
        match classes_from(t, p, Seq::empty()) {
            Err(e) => Err(e),
            Ok((cs, q)) => match tail_from(t, q, Seq::empty()) {
                Err(e) => Err(e),
                Ok((attrs, body)) => Ok(
                    (
                        ElemModel {
                            tag: t.subrange(ind, te),
                            id: if has_id {
                                Some(t.subrange(te + 1, p))
                            } else {
                                None
                            },
                            classes: opt_seq(cs),
                            attributes: opt_seq(attrs),
                            cont: None,
                            children: None,
                        },
                        body,
                    ),
                ),
            },
        }
    }
}

pub open spec fn with_cont(m: ElemModel, c: Option<ContModel>) -> ElemModel {
    ElemModel {
        tag: m.tag,
        id: m.id,
        classes: m.classes,
        attributes: m.attributes,
        cont: c,
        children: m.children,
    }
}

pub open spec fn with_children(m: ElemModel, c: Option<Seq<ElemModel>>) -> ElemModel {
    ElemModel {
        tag: m.tag,
        id: m.id,
        classes: m.classes,
        attributes: m.attributes,
        cont: m.cont,
        children: c,
    }
}

/// The number of spaces that a line starts with.
pub open spec fn indent(l: Seq<char>) -> int {
    run_end(l, 0, ' ')
}

/// The lines of `s` from position `i` on that hold more than spaces, appended to `acc`.
/// A line ends at `\n`, and a `\r` right before it is not part of the line.
pub open spec fn lines_from(s: Seq<char>, i: int, acc: Seq<Seq<char>>) -> Seq<Seq<char>>
    decreases s.len() - i,
    via lines_from_decreases
{
    if i < 0 || i > s.len() {
        acc
    } else {
        let e = find_char(s, i, '\n');
        let le = if e > i && s[e - 1] == '\r' {
            e - 1
        } else {
            e
        };
        let l = s.subrange(i, le);
        let acc2 = if indent(l) == l.len() {
            acc
        } else {
            acc.push(l)
        };
        if e >= s.len() {
            acc2
        } else {
            lines_from(s, e + 1, acc2)
        }
    }
}

#[via_fn]
proof fn lines_from_decreases(s: Seq<char>, i: int, acc: Seq<Seq<char>>) {
    if 0 <= i <= s.len() {
        lemma_find_char_bounds(s, i, '\n');
    }
}

/// The first line at or after `j`, and before `end`, that is indented by `d` spaces or
/// fewer: where the lines nested under an element indented by `d` stop.
pub open spec fn subtree_end(ls: Seq<Seq<char>>, j: int, end: int, d: int) -> int
    decreases end - j,
{
    if 0 <= j < end && j < ls.len() && indent(ls[j]) > d {
        subtree_end(ls, j + 1, end, d)
    } else {
        j
    }
}

pub proof fn lemma_subtree_end_bounds(ls: Seq<Seq<char>>, j: int, end: int, d: int)
    requires
        0 <= j <= end,
    ensures
        j <= subtree_end(ls, j, end, d) <= end,
    decreases end - j,
{
    if j < end && j < ls.len() && indent(ls[j]) > d {
        lemma_subtree_end_bounds(ls, j + 1, end, d);
    }
}

/// The text of the block lines `j .. end`, each indented by exactly `d` spaces, appended
/// to `acc`.
pub open spec fn block_from(
    ls: Seq<Seq<char>>,
    j: int,
    end: int,
    d: int,
    acc: Seq<Seq<char>>,
) -> Result<Seq<Seq<char>>, ParseError>
    decreases end - j,
{
    if j < 0 || j >= end || j >= ls.len() {
        Ok(acc)
    } else if indent(ls[j]) != d {
        Err(ParseError::BadIndentation)
    } else {
        block_from(ls, j + 1, end, d, acc.push(ls[j].subrange(d, ls[j].len() as int)))
    }
}

/// The sibling elements on lines `i .. end`, each indented by exactly `d` spaces, with
/// what is nested under each, appended to `acc`.
pub open spec fn forest_from(
    ls: Seq<Seq<char>>,
    i: int,
    end: int,
    d: int,
    acc: Seq<ElemModel>,
) -> Result<Seq<ElemModel>, ParseError>
    decreases end - i,
    via forest_from_decreases
{
    if i < 0 || i >= end || i >= ls.len() {
        Ok(acc)
    } else if indent(ls[i]) != d {
        Err(ParseError::BadIndentation)
    } else {
        match line_head(ls[i]) {
            Err(e) => Err(e),
            Ok((head, body)) => {
                let k = subtree_end(ls, i + 1, end, d);
                match body {
                    BodyModel::Block => match block_from(ls, i + 1, k, d + 2, Seq::empty()) {
                        Err(e) => Err(e),
                        Ok(text) => forest_from(
                            ls,
                            k,
                            end,
                            d,
                            acc.push(
                                with_cont(
                                    head,
                                    if text.len() == 0 {
                                        None
                                    } else {
                                        Some(ContModel::Block(text))
                                    },
                                ),
                            ),
                        ),
                    },
                    BodyModel::Inline(c) => if k > i + 1 {
                        Err(ParseError::BadIndentation)
                    } else {
                        let elem = with_cont(head, Some(ContModel::Line(c)));
                        forest_from(ls, k, end, d, acc.push(elem))
                    },
                    BodyModel::Plain => if k > i + 1 {
                        match forest_from(ls, i + 1, k, d + 2, Seq::empty()) {
                            Err(e) => Err(e),
                            Ok(kids) => forest_from(
                                ls,
                                k,
                                end,
                                d,
                                acc.push(with_children(head, Some(kids))),
                            ),
                        }
                    } else {
                        forest_from(ls, k, end, d, acc.push(head))
                    },
                }
            },
        }
    }
}

#[via_fn]
proof fn forest_from_decreases(ls: Seq<Seq<char>>, i: int, end: int, d: int, acc: Seq<ElemModel>) {
    if 0 <= i < end {
        lemma_subtree_end_bounds(ls, i + 1, end, d);
    }
}

/// The element forest that a source describes, or why it matches no forest.
pub open spec fn parse_source(s: Seq<char>) -> Result<Seq<ElemModel>, ParseError> {
    let ls = lines_from(s, 0, Seq::empty());
    forest_from(ls, 0, ls.len() as int, 0, Seq::empty())
}

proof fn lemma_line_head_shape(t: Seq<char>)
    requires
        line_head(t) is Ok,
    ensures
        line_head(t)->Ok_0.0.tag.len() > 0,
        line_head(t)->Ok_0.0.cont is None,
        line_head(t)->Ok_0.0.children is None,
{
    lemma_run_end_bounds(t, 0, ' ');
    lemma_name_end_bounds(t, run_end(t, 0, ' '));
}

proof fn lemma_forest_from_wf(ls: Seq<Seq<char>>, i: int, end: int, d: int, acc: Seq<ElemModel>)
    requires
        forest_wf(acc),
        forest_from(ls, i, end, d, acc) is Ok,
    ensures
        forest_wf(forest_from(ls, i, end, d, acc)->Ok_0),
    decreases end - i,
{
    if 0 <= i < end && i < ls.len() && indent(ls[i]) == d {
        lemma_line_head_shape(ls[i]);
        lemma_subtree_end_bounds(ls, i + 1, end, d);
        let head = line_head(ls[i])->Ok_0.0;
        let body = line_head(ls[i])->Ok_0.1;
        let k = subtree_end(ls, i + 1, end, d);
        match body {
            BodyModel::Block => {
                let text = block_from(ls, i + 1, k, d + 2, Seq::empty())->Ok_0;
                let elem = with_cont(
                    head,
                    if text.len() == 0 {
                        None
                    } else {
                        Some(ContModel::Block(text))
                    },
                );
                assert(elem_wf(elem));
                assert(acc.push(elem).drop_last() =~= acc);
                lemma_forest_from_wf(ls, k, end, d, acc.push(elem));
            },
            BodyModel::Inline(c) => {
                let elem = with_cont(head, Some(ContModel::Line(c)));
                assert(elem_wf(elem));
                assert(acc.push(elem).drop_last() =~= acc);
                lemma_forest_from_wf(ls, k, end, d, acc.push(elem));
            },
            BodyModel::Plain => {
                if k > i + 1 {
                    lemma_forest_from_wf(ls, i + 1, k, d + 2, Seq::empty());
                    let kids = forest_from(ls, i + 1, k, d + 2, Seq::empty())->Ok_0;
                    let elem = with_children(head, Some(kids));
                    assert(elem_wf(elem));
                    assert(acc.push(elem).drop_last() =~= acc);
                    lemma_forest_from_wf(ls, k, end, d, acc.push(elem));
                } else {
                    assert(elem_wf(head));
                    assert(acc.push(head).drop_last() =~= acc);
                    lemma_forest_from_wf(ls, k, end, d, acc.push(head));
                }
            },
        }
    }
}

/// Every element that a successful parse yields, at any depth, has a non-empty tag and
/// does not have both content and children.
pub proof fn lemma_parsed_forest_well_formed(s: Seq<char>)
    requires
        parse_source(s) is Ok,
    ensures
        forest_wf(parse_source(s)->Ok_0),
{
    let ls = lines_from(s, 0, Seq::empty());
    lemma_forest_from_wf(ls, 0, ls.len() as int, 0, Seq::empty());
}

/// The model of a parse result.
pub open spec fn forest_result(r: Result<Vec<Elem>, ParseError>) -> Result<
    Seq<ElemModel>,
    ParseError,
> {
    match r {
        Ok(v) => Ok(elems_view(v@)),
        Err(e) => Err(e),
    }
}

pub open spec fn texts_result(r: Result<Vec<String>, ParseError>) -> Result<
    Seq<Seq<char>>,
    ParseError,
> {
    match r {
        Ok(v) => Ok(v.deep_view()),
        Err(e) => Err(e),
    }
}

/// `indents` holds the indent of each line of `ls`.
pub open spec fn indents_of(ls: Seq<Seq<char>>, indents: Seq<usize>) -> bool {
    &&& indents.len() == ls.len()
    &&& forall|m: int| 0 <= m < ls.len() ==> indents[m] as int == indent(#[trigger] ls[m])
}

/// What ends an element line, as the parser hands it on.
pub enum LineBody {
    Plain,
    Inline(String),
    Block,
}

impl View for LineBody {
    type V = BodyModel;

    open spec fn view(&self) -> BodyModel {
        match self {
            LineBody::Plain => BodyModel::Plain,
            LineBody::Inline(s) => BodyModel::Inline(s@),
            LineBody::Block => BodyModel::Block,
        }
    }
}

fn is_name_char_exec(c: char) -> (b: bool)
    ensures
        b == is_name_char(c),
{
    let u = c as u32;
    (97 <= u && u <= 122) || (65 <= u && u <= 90) || (48 <= u && u <= 57) || c == '-' || c == '_'
}

fn scan_name(cs: &Vec<char>, i: usize) -> (e: usize)
    requires
        i <= cs@.len(),
    ensures
        e == name_end(cs@, i as int),
        i <= e <= cs@.len(),
{
    let mut j = i;
    while j < cs.len() && is_name_char_exec(cs[j])
        invariant
            i <= j <= cs@.len(),
            name_end(cs@, i as int) == name_end(cs@, j as int),
        decreases cs@.len() - j,
    {
        j = j + 1;
    }
    j
}

fn scan_find(cs: &Vec<char>, i: usize, q: char) -> (e: usize)
    requires
        i <= cs@.len(),
    ensures
        e == find_char(cs@, i as int, q),
        i <= e <= cs@.len(),
{
    let mut j = i;
    while j < cs.len() && cs[j] != q
        invariant
            i <= j <= cs@.len(),
            find_char(cs@, i as int, q) == find_char(cs@, j as int, q),
        decreases cs@.len() - j,
    {
        j = j + 1;
    }
    j
}

fn scan_naked(cs: &Vec<char>, i: usize) -> (e: usize)
    requires
        i <= cs@.len(),
    ensures
        e == naked_end(cs@, i as int),
        i <= e <= cs@.len(),
{
    let mut j = i;
    while j < cs.len() && cs[j] != ' ' && !(cs[j] == ':' && j + 1 == cs.len())
        invariant
            i <= j <= cs@.len(),
            naked_end(cs@, i as int) == naked_end(cs@, j as int),
        decreases cs@.len() - j,
    {
        j = j + 1;
    }
    j
}

fn parse_classes(
    t: &str,
    cs: &Vec<char>,
    start: usize,
) -> (r: Result<(Vec<String>, usize), ParseError>)
    requires
        cs@ == t@,
        start <= cs@.len(),
    ensures
        match r {
            Ok((v, e)) => {
                &&& classes_from(t@, start as int, Seq::empty()) == Ok::<
                    (Seq<Seq<char>>, int),
                    ParseError,
                >((v.deep_view(), e as int))
                &&& start <= e <= t@.len()
            },
            Err(x) => classes_from(t@, start as int, Seq::empty()) == Err::<
                (Seq<Seq<char>>, int),
                ParseError,
            >(x),
        },
{
    let mut acc: Vec<String> = Vec::new();
    let mut i = start;
    assert(acc.deep_view() =~= Seq::<Seq<char>>::empty());
    while i < cs.len() && cs[i] == '.'
        invariant
            cs@ == t@,
            start <= i <= cs@.len(),
            classes_from(t@, start as int, Seq::empty()) == classes_from(
                t@,
                i as int,
                acc.deep_view(),
            ),
        decreases cs@.len() - i,
    {
        let e = scan_name(cs, i + 1);
        if e == i + 1 {
            return Err(ParseError::UnexpectedCharacter);
        }
        let ghost old_acc = acc.deep_view();
        acc.push(substring(t, i + 1, e));
        assert(acc.deep_view() =~= old_acc.push(t@.subrange(i + 1, e as int)));
        i = e;
    }
    Ok((acc, i))
}

fn parse_tail(
    t: &str,
    cs: &Vec<char>,
    start: usize,
) -> (r: Result<(Vec<Attr>, LineBody), ParseError>)
    requires
        cs@ == t@,
        start <= cs@.len(),
    ensures
        match r {
            Ok((v, b)) => tail_from(t@, start as int, Seq::empty()) == Ok::<
                (Seq<AttrModel>, BodyModel),
                ParseError,
            >((attrs_view(v@), b@)),
            Err(x) => tail_from(t@, start as int, Seq::empty()) == Err::<
                (Seq<AttrModel>, BodyModel),
                ParseError,
            >(x),
        },
{
    let n = cs.len();
    let mut acc: Vec<Attr> = Vec::new();
    let mut i = start;
    assert(attrs_view(acc@) =~= Seq::<AttrModel>::empty());
    loop
        invariant
            cs@ == t@,
            n == cs@.len(),
            start <= i <= n,
            tail_from(t@, start as int, Seq::empty()) == tail_from(
                t@,
                i as int,
                attrs_view(acc@),
            ),
        decreases n - i,
    {
        if i >= n {
            return Ok((acc, LineBody::Plain));
        }
        if cs[i] == ':' && i + 1 == n {
            return Ok((acc, LineBody::Block));
        }
        if cs[i] != ' ' {
            return Err(ParseError::UnexpectedCharacter);
        }
        let r = scan_run(cs, i, ' ');
        if r >= n {
            return Ok((acc, LineBody::Plain));
        }
        let ne = scan_name(cs, r);
        if !(ne > r && ne < n && cs[ne] == '=') {
            return Ok((acc, LineBody::Inline(substring(t, r, n))));
        }
        let v = ne + 1;
        let name = substring(t, r, ne);
        let ghost old_acc = attrs_view(acc@);
        if v < n && (cs[v] == '"' || cs[v] == '\'') {
            let close = scan_find(cs, v + 1, cs[v]);
            if close >= n {
                return Err(ParseError::UnterminatedQuote);
            }
            let value = substring(t, v + 1, close);
            acc.push(Attr { name, value });
            assert(attrs_view(acc@) =~= old_acc.push(
                AttrModel {
                    name: t@.subrange(r as int, ne as int),
                    value: t@.subrange(v + 1, close as int),
                },
            ));
            i = close + 1;
        } else {
            let ve = scan_naked(cs, v);
            if ve == v {
                return Err(ParseError::UnexpectedCharacter);
            }
            let value = substring(t, v, ve);
            acc.push(Attr { name, value });
            assert(attrs_view(acc@) =~= old_acc.push(
                AttrModel {
                    name: t@.subrange(r as int, ne as int),
                    value: t@.subrange(v as int, ve as int),
                },
            ));
            i = ve;
        }
    }
}

fn parse_line(t: &str) -> (r: Result<(Elem, LineBody), ParseError>)
    ensures
        match r {
            Ok((e, b)) => line_head(t@) == Ok::<(ElemModel, BodyModel), ParseError>((e@, b@)),
            Err(x) => line_head(t@) == Err::<(ElemModel, BodyModel), ParseError>(x),
        },
{
    let cs = chars_of(t);
    let n = cs.len();
    let ind = scan_run(&cs, 0, ' ');
    let te = scan_name(&cs, ind);
    let has_id = te < n && cs[te] == '#';
    let p = if has_id {
        scan_name(&cs, te + 1)
    } else {
        te
    };
    if te == ind || (has_id && p == te + 1) {
        return Err(ParseError::UnexpectedCharacter);
    }
    let tag = substring(t, ind, te);
    let id = if has_id {
        Some(substring(t, te + 1, p))
    } else {
        None
    };
    let (classes, q) = match parse_classes(t, &cs, p) {
        Err(e) => return Err(e),
        Ok(x) => x,
    };
    let (attrs, body) = match parse_tail(t, &cs, q) {
        Err(e) => return Err(e),
        Ok(x) => x,
    };
    let classes = if classes.len() == 0 {
        None
    } else {
        Some(classes)
    };
    let attributes = if attrs.len() == 0 {
        None
    } else {
        Some(attrs)
    };
    let e = Elem { tag, id, classes, attributes, cont: None, children: None };
    Ok((e, body))
}

/// Splits a source into its lines that hold more than spaces, with the indent of each.
fn split_lines(input: &str) -> (r: (Vec<String>, Vec<usize>))
    ensures
        r.0.deep_view() == lines_from(input@, 0, Seq::empty()),
        indents_of(r.0.deep_view(), r.1@),
{
    let cs = chars_of(input);
    let n = cs.len();
    let mut lines: Vec<String> = Vec::new();
    let mut indents: Vec<usize> = Vec::new();
    let mut i: usize = 0;
    assert(lines.deep_view() =~= Seq::<Seq<char>>::empty());
    loop
        invariant
            cs@ == input@,
            n == cs@.len(),
            i <= n,
            lines_from(input@, 0, Seq::empty()) == lines_from(
                input@,
                i as int,
                lines.deep_view(),
            ),
            indents_of(lines.deep_view(), indents@),
        decreases n - i,
    {
        let e = scan_find(&cs, i, '\n');
        let le = if e > i && cs[e - 1] == '\r' {
            e - 1
        } else {
            e
        };
        let line = substring(input, i, le);
        let lcs = chars_of(line.as_str());
        let ind = scan_run(&lcs, 0, ' ');
        if ind < lcs.len() {
            let ghost old_lines = lines.deep_view();
            lines.push(line);
            indents.push(ind);
            assert(lines.deep_view() =~= old_lines.push(input@.subrange(i as int, le as int)));
        }
        if e >= n {
            return (lines, indents);
        }
        i = e + 1;
    }
}

fn subtree_end_exec(
    indents: &Vec<usize>,
    j: usize,
    end: usize,
    d: usize,
    ls: Ghost<Seq<Seq<char>>>,
) -> (k: usize)
    requires
        j <= end <= indents@.len(),
        indents_of(ls@, indents@),
    ensures
        k == subtree_end(ls@, j as int, end as int, d as int),
        j <= k <= end,
{
    let mut k = j;
    while k < end && indents[k] > d
        invariant
            j <= k <= end,
            end <= indents@.len(),
            indents_of(ls@, indents@),
            subtree_end(ls@, j as int, end as int, d as int) == subtree_end(
                ls@,
                k as int,
                end as int,
                d as int,
            ),
        decreases end - k,
    {
        k = k + 1;
    }
    k
}

fn block_lines(
    lines: &Vec<String>,
    indents: &Vec<usize>,
    j: usize,
    end: usize,
    d: usize,
) -> (r: Result<Vec<String>, ParseError>)
    requires
        j <= end <= lines@.len(),
        indents_of(lines.deep_view(), indents@),
    ensures
        texts_result(r) == block_from(
            lines.deep_view(),
            j as int,
            end as int,
            d as int,
            Seq::empty(),
        ),
{
    let ghost ls = lines.deep_view();
    let mut acc: Vec<String> = Vec::new();
    let mut m = j;
    assert(acc.deep_view() =~= Seq::<Seq<char>>::empty());
    while m < end
        invariant
            j <= m <= end,
            end <= lines@.len(),
            ls == lines.deep_view(),
            indents_of(ls, indents@),
            block_from(ls, j as int, end as int, d as int, Seq::empty()) == block_from(
                ls,
                m as int,
                end as int,
                d as int,
                acc.deep_view(),
            ),
        decreases end - m,
    {
        if indents[m] != d {
            return Err(ParseError::BadIndentation);
        }
        let text = lines[m].as_str();
        let len = text.unicode_len();
        proof {
            lemma_run_end_bounds(text@, 0, ' ');
        }
        let ghost old_acc = acc.deep_view();
        acc.push(substring(text, d, len));
        assert(acc.deep_view() =~= old_acc.push(
            ls[m as int].subrange(d as int, ls[m as int].len() as int),
        ));
        m = m + 1;
    }
    Ok(acc)
}

fn build_forest(
    lines: &Vec<String>,
    indents: &Vec<usize>,
    start: usize,
    end: usize,
    d: usize,
) -> (r: Result<Vec<Elem>, ParseError>)
    requires
        start <= end <= lines@.len(),
        indents_of(lines.deep_view(), indents@),
    ensures
        forest_result(r) == forest_from(
            lines.deep_view(),
            start as int,
            end as int,
            d as int,
            Seq::empty(),
        ),
    decreases end - start,
{
    let ghost ls = lines.deep_view();
    let mut acc: Vec<Elem> = Vec::new();
    let mut i = start;
    assert(elems_view(acc@) =~= Seq::<ElemModel>::empty());
    loop
        invariant
            start <= i <= end,
            end <= lines@.len(),
            ls == lines.deep_view(),
            indents_of(ls, indents@),
            forest_from(ls, start as int, end as int, d as int, Seq::empty()) == forest_from(
                ls,
                i as int,
                end as int,
                d as int,
                elems_view(acc@),
            ),
        decreases end - i,
    {
        if i >= end {
            return Ok(acc);
        }
        if indents[i] != d {
            return Err(ParseError::BadIndentation);
        }
        let (head, body) = match parse_line(lines[i].as_str()) {
            Err(e) => return Err(e),
            Ok(x) => x,
        };
        let k = subtree_end_exec(indents, i + 1, end, d, Ghost(ls));
        let elem = match body {
            LineBody::Block => {
                let text = if k > i + 1 {
                    if indents[i + 1] - d != 2 {
                        return Err(ParseError::BadIndentation);
                    }
                    match block_lines(lines, indents, i + 1, k, indents[i + 1]) {
                        Err(e) => return Err(e),
                        Ok(t) => t,
                    }
                } else {
                    Vec::new()
                };
                let mut e = head;
                if text.len() > 0 {
                    e.cont = Some(Cont::BLOCK(text));
                }
                e
            },
            LineBody::Inline(c) => {
                if k > i + 1 {
                    return Err(ParseError::BadIndentation);
                }
                let mut e = head;
                e.cont = Some(Cont::LINE(c));
                e
            },
            LineBody::Plain => {
                if k > i + 1 {
                    if indents[i + 1] - d != 2 {
                        proof {
                            assert(ls[i + 1] == lines@[i + 1]@);
                            assert(forest_from(ls, i + 1, k as int, d + 2, Seq::empty())
                                == Err::<Seq<ElemModel>, ParseError>(ParseError::BadIndentation));
                        }
                        return Err(ParseError::BadIndentation);
                    }
                    let kids = match build_forest(lines, indents, i + 1, k, indents[i + 1]) {
                        Err(e) => return Err(e),
                        Ok(v) => v,
                    };
                    let mut e = head;
                    e.children = Some(kids);
                    e
                } else {
                    head
                }
            },
        };
        proof {
            lemma_elems_view_push(acc@, elem);
        }
        acc.push(elem);
        i = k;
    }
}

/// Parses a source into its forest of root elements, or says why it matches no forest.
pub fn from_str(input: &str) -> (r: Result<Vec<Elem>, ParseError>)
    ensures
        forest_result(r) == parse_source(input@),
        r is Ok ==> forest_wf(elems_view(r->Ok_0@)),
{
    let (lines, indents) = split_lines(input);
    let r = build_forest(&lines, &indents, 0, lines.len(), 0);
    proof {
        if r is Ok {
            lemma_parsed_forest_well_formed(input@);
        }
    }
    r
}

} // verus!
