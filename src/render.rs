//! Serialisation of an element forest to HTML text.
use vstd::prelude::*;
use crate::element::{
    Attr, AttrModel, Cont, ContModel, Elem, ElemModel, attrs_view, elem_view, elems_view,
    lemma_elems_view,
};

verus! {

broadcast use vstd::std_specs::vec::group_vec_axioms, vstd::seq::group_seq_axioms;

/// The parts joined by `sep`, with no separator before the first or after the last.
pub open spec fn join(parts: Seq<Seq<char>>, sep: Seq<char>) -> Seq<char>
    decreases parts.len(),
{
    if parts.len() == 0 {
        Seq::empty()
    } else if parts.len() == 1 {
        parts[0]
    } else {
        join(parts.drop_last(), sep) + sep + parts.last()
    }
}

/// `name="value"`, or `name='value'` when the value holds a double quote.
pub open spec fn attr_text(a: AttrModel) -> Seq<char> {
    if a.value.contains('"') {
        a.name + seq!['=', '\''] + a.value + seq!['\'']
    } else {
        a.name + seq!['=', '"'] + a.value + seq!['"']
    }
}

/// Each attribute preceded by one space, in declaration order.
pub open spec fn attrs_text(s: Seq<AttrModel>) -> Seq<char>
    decreases s.len(),
{
    if s.len() == 0 {
        Seq::empty()
    } else {
        attrs_text(s.drop_last()) + seq![' '] + attr_text(s.last())
    }
}

pub open spec fn id_text(id: Option<Seq<char>>) -> Seq<char> {
    match id {
        Some(i) => seq![' ', 'i', 'd', '=', '"'] + i + seq!['"'],
        None => Seq::empty(),
    }
}

pub open spec fn classes_text(classes: Option<Seq<Seq<char>>>) -> Seq<char> {
    match classes {
        Some(c) => seq![' ', 'c', 'l', 'a', 's', 's', '=', '"'] + join(c, seq![' ']) + seq!['"'],
        None => Seq::empty(),
    }
}

/// What stands inside the opening tag: the tag, then id, classes and attributes.
pub open spec fn opening_text(e: ElemModel) -> Seq<char> {
    e.tag + id_text(e.id) + classes_text(e.classes) + match e.attributes {
        Some(a) => attrs_text(a),
        None => Seq::empty(),
    }
}

/// An inline line as it is; block lines joined by `<br>`.
pub open spec fn cont_text(c: Option<ContModel>) -> Seq<char> {
    match c {
        Some(ContModel::Line(l)) => l,
        Some(ContModel::Block(ls)) => join(ls, seq!['<', 'b', 'r', '>']),
        None => Seq::empty(),
    }
}

/// The HTML text of one element and its subtree.
pub open spec fn render_model(e: ElemModel) -> Seq<char>
    decreases e,
{
    let body = cont_text(e.cont) + match e.children {
        Some(c) => render_all(c),
        None => Seq::empty(),
    };
    if body.len() == 0 {
        seq!['<'] + opening_text(e) + seq![' ', '/', '>']
    } else {
        seq!['<'] + opening_text(e) + seq!['>'] + body + seq!['<', '/'] + e.tag + seq!['>']
    }
}

/// The HTML text of a forest: each element rendered, in order.
pub open spec fn render_all(s: Seq<ElemModel>) -> Seq<char>
    decreases s,
{
    if s.len() == 0 {
        Seq::empty()
    } else {
        render_all(s.drop_last()) + render_model(s.last())
    }
}

/// An element whose content text is empty and that has no children (or an empty list of
/// them) renders self-closing: `<`, the tag, then its id, classes and attributes in that
/// order, then ` />`.
pub proof fn lemma_empty_element_self_closes(e: ElemModel)
    requires
        cont_text(e.cont).len() == 0,
        e.children is None || e.children->0.len() == 0,
    ensures
        render_model(e) == seq!['<'] + e.tag + id_text(e.id) + classes_text(e.classes)
            + match e.attributes {
            Some(a) => attrs_text(a),
            None => Seq::empty(),
        } + seq![' ', '/', '>'],
{
    let body = cont_text(e.cont) + match e.children {
        Some(c) => render_all(c),
        None => Seq::<char>::empty(),
    };
    assert(body =~= Seq::<char>::empty());
    assert(render_model(e) =~= seq!['<'] + opening_text(e) + seq![' ', '/', '>']);
}

/// Classes render in declaration order, joined by single spaces: two classes `a` and `b`
/// give ` class="a b"`.
pub proof fn lemma_two_classes_keep_order(a: Seq<char>, b: Seq<char>)
    ensures
        classes_text(Some(seq![a, b])) == seq![' ', 'c', 'l', 'a', 's', 's', '=', '"'] + a
            + seq![' '] + b + seq!['"'],
{
    let parts = seq![a, b];
    assert(parts.drop_last() =~= seq![a]);
    assert(join(seq![a], seq![' ']) == a);
    assert(parts.last() == b);
    assert(join(parts, seq![' ']) == join(seq![a], seq![' ']) + seq![' '] + b);
    assert(classes_text(Some(parts)) =~= seq![' ', 'c', 'l', 'a', 's', 's', '=', '"'] + a
        + seq![' '] + b + seq!['"']);
}

/// An attribute whose value holds a double quote renders as `name='value'`, the value
/// copied as it is; any other renders as `name="value"`.
pub proof fn lemma_attribute_quoting(a: AttrModel)
    ensures
        a.value.contains('"') ==> attr_text(a) == a.name + seq!['=', '\''] + a.value + seq!['\''],
        !a.value.contains('"') ==> attr_text(a) == a.name + seq!['=', '"'] + a.value + seq!['"'],
{
}

/// The strings of `parts` joined by `sep`.
pub fn join_texts(parts: &Vec<String>, sep: &str) -> (r: String)
    ensures
        r@ == join(parts.deep_view(), sep@),
{
    let mut r = String::new();
    let mut i: usize = 0;
    while i < parts.len()
        invariant
            i <= parts.len(),
            r@ == join(parts.deep_view().subrange(0, i as int), sep@),
        decreases parts.len() - i,
    {
        let ghost before = parts.deep_view().subrange(0, i as int);
        if i > 0 {
            r.append(sep);
        }
        r.append(parts[i].as_str());
        proof {
            let after = parts.deep_view().subrange(0, i + 1);
            assert(after.drop_last() =~= before);
            if i == 0 {
                assert(join(before, sep@) =~= Seq::empty());
            }
        }
        i = i + 1;
    }
    proof {
        assert(parts.deep_view().subrange(0, parts.len() as int) =~= parts.deep_view());
    }
    r
}

fn attr_string(a: &Attr) -> (r: String)
    ensures
        r@ == attr_text(a@),
{
    let mut r = String::new();
    r.append(a.name.as_str());
    let mut has_double: bool = false;
    let n = a.value.as_str().unicode_len();
    let mut i: usize = 0;
    while i < n
        invariant
            n == a.value@.len(),
            i <= n,
            has_double == a.value@.subrange(0, i as int).contains('"'),
        decreases n - i,
    {
        proof {
            let s = a.value@.subrange(0, i + 1);
            assert(s.drop_last() =~= a.value@.subrange(0, i as int));
            if s.contains('"') {
                let k = choose|k: int| 0 <= k < s.len() && s[k] == '"';
                if k < i {
                    assert(a.value@.subrange(0, i as int)[k] == '"');
                }
            }
            if a.value@.subrange(0, i as int).contains('"') {
                let k = choose|k: int| 0 <= k < i && a.value@.subrange(0, i as int)[k] == '"';
                assert(s[k] == '"');
            }
        }
        if a.value.as_str().get_char(i) == '"' {
            has_double = true;
            proof {
                assert(a.value@.subrange(0, i + 1)[i as int] == '"');
            }
        }
        i = i + 1;
    }
    proof {
        assert(a.value@.subrange(0, n as int) =~= a.value@);
        reveal_strlit("='");
        reveal_strlit("'");
        reveal_strlit("=\"");
        reveal_strlit("\"");
    }
    if has_double {
        r.append("='");
        r.append(a.value.as_str());
        r.append("'");
    } else {
        r.append("=\"");
        r.append(a.value.as_str());
        r.append("\"");
    }
    r
}

/// The text that stands between `<` and `>` (or ` />`) of the element's opening tag.
pub fn opening_string(e: &Elem) -> (r: String)
    ensures
        r@ == opening_text(e@),
{
    proof {
        reveal_strlit(" id=\"");
        reveal_strlit("\"");
        reveal_strlit(" class=\"");
        reveal_strlit(" ");
        assert(" "@ =~= seq![' ']);
        assert(" class=\""@ =~= seq![' ', 'c', 'l', 'a', 's', 's', '=', '"']);
        assert(" id=\""@ =~= seq![' ', 'i', 'd', '=', '"']);
        assert("\""@ =~= seq!['"']);
    }
    let mut r = String::new();
    r.append(e.tag.as_str());
    if let Some(id) = &e.id {
        r.append(" id=\"");
        r.append(id.as_str());
        r.append("\"");
    }
    assert(r@ =~= e@.tag + id_text(e@.id));
    if let Some(classes) = &e.classes {
        let joined = join_texts(classes, " ");
        r.append(" class=\"");
        r.append(joined.as_str());
        r.append("\"");
    }
    assert(r@ =~= e@.tag + id_text(e@.id) + classes_text(e@.classes));
    let ghost prefix = r@;
    if let Some(attrs) = &e.attributes {
        let mut i: usize = 0;
        while i < attrs.len()
            invariant
                i <= attrs.len(),
                e.attributes == Some(*attrs),
                r@ == prefix + attrs_text(attrs_view(attrs@).subrange(0, i as int)),
            decreases attrs.len() - i,
        {
            let text = attr_string(&attrs[i]);
            r.append(" ");
            r.append(text.as_str());
            proof {
                let s = attrs_view(attrs@);
                assert(s.subrange(0, i + 1).drop_last() =~= s.subrange(0, i as int));
                assert(s.subrange(0, i + 1).last() == attrs@[i as int]@);
                reveal_strlit(" ");
                assert(" "@ =~= seq![' ']);
                assert(r@ =~= prefix + attrs_text(s.subrange(0, i + 1)));
            }
            i = i + 1;
        }
        proof {
            assert(attrs_view(attrs@).subrange(0, attrs.len() as int) =~= attrs_view(attrs@));
        }
    } else {
        assert(r@ =~= prefix + Seq::<char>::empty());
    }
    r
}

/// The text of an element's content: an inline line as it is, block lines joined by `<br>`.
pub fn render_cont(cont: &Cont) -> (r: String)
    ensures
        r@ == cont_text(Some(cont@)),
{
    proof {
        reveal_strlit("<br>");
        assert("<br>"@ =~= seq!['<', 'b', 'r', '>']);
    }
    let mut text = String::new();
    match cont {
        Cont::LINE(l) => {
            text.append(l.as_str());
        },
        Cont::BLOCK(b) => {
            let joined = join_texts(b, "<br>");
            text.append(joined.as_str());
        },
    }
    assert(text@ =~= cont_text(Some(cont@)));
    text
}

/// Renders one element and its subtree: `<opening />` when the body is empty, else
/// `<opening>body</tag>`.
pub fn render_elem(elem: &Elem) -> (r: String)
    ensures
        r@ == render_model(elem@),
    decreases elem,
{
    let opening = opening_string(elem);
    let mut content = String::new();
    if let Some(c) = &elem.cont {
        let text = render_cont(c);
        content.append(text.as_str());
    }
    assert(content@ =~= cont_text(elem@.cont));
    let ghost prefix = content@;
    if let Some(children) = &elem.children {
        proof {
            lemma_elems_view(children@);
        }
        let mut i: usize = 0;
        while i < children.len()
            invariant
                i <= children.len(),
                elem.children == Some(*children),
                elems_view(children@).len() == children@.len(),
                forall|j: int|
                    0 <= j < children@.len() ==> #[trigger] elems_view(children@)[j]
                        == elem_view(children@[j]),
                content@ == prefix + render_all(elems_view(children@).subrange(0, i as int)),
            decreases children.len() - i,
        {
            proof {
                assert(decreases_to!(elem => elem.children->0));
                assert(decreases_to!(*children => children@));
                assert(decreases_to!(children@ => children@[i as int]));
            }
            let text = render_elem(&children[i]);
            content.append(text.as_str());
            proof {
                let s = elems_view(children@);
                assert(s.subrange(0, i + 1).drop_last() =~= s.subrange(0, i as int));
            }
            i = i + 1;
        }
        proof {
            assert(elems_view(children@).subrange(0, children.len() as int) =~= elems_view(
                children@,
            ));
        }
    } else {
        assert(content@ =~= prefix + Seq::<char>::empty());
    }
    proof {
        reveal_strlit("<");
        reveal_strlit(" />");
        reveal_strlit(">");
        reveal_strlit("</");
    }
    let mut result = String::new();
    result.append("<");
    result.append(opening.as_str());
    if content.as_str().is_empty() {
        result.append(" />");
    } else {
        result.append(">");
        result.append(content.as_str());
        result.append("</");
        result.append(elem.tag.as_str());
        result.append(">");
    }
    result
}

/// Renders a forest: each root element in order, concatenated.
pub fn render(input: Vec<Elem>) -> (r: String)
    ensures
        r@ == render_all(elems_view(input@)),
{
    proof {
        lemma_elems_view(input@);
    }
    let mut result = String::new();
    let mut i: usize = 0;
    while i < input.len()
        invariant
            i <= input.len(),
            elems_view(input@).len() == input@.len(),
            forall|j: int|
                0 <= j < input@.len() ==> #[trigger] elems_view(input@)[j] == elem_view(input@[j]),
            result@ == render_all(elems_view(input@).subrange(0, i as int)),
        decreases input.len() - i,
    {
        let text = render_elem(&input[i]);
        result.append(text.as_str());
        proof {
            let s = elems_view(input@);
            assert(s.subrange(0, i + 1).drop_last() =~= s.subrange(0, i as int));
        }
        i = i + 1;
    }
    proof {
        assert(elems_view(input@).subrange(0, input.len() as int) =~= elems_view(input@));
    }
    result
}

} // verus!
