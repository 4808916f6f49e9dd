//! The markup tree: elements, their attributes and their content.
use vstd::prelude::*;

verus! {

/// One `name=value` attribute of an element, kept in declaration order.
#[derive(PartialEq, Eq, Debug)]
pub struct Attr {
    pub name: String,
    pub value: String,
}

/// Text content of an element: one inline line, or the lines of an indented block.
#[allow(non_camel_case_types)]
#[derive(PartialEq, Eq, Debug)]
pub enum Cont {
    LINE(String),
    BLOCK(Vec<String>),
}

/// One node of the markup tree.
#[derive(PartialEq, Eq, Debug)]
pub struct Elem {
    pub tag: String,
    pub id: Option<String>,
    pub classes: Option<Vec<String>>,
    pub attributes: Option<Vec<Attr>>,
    pub cont: Option<Cont>,
    pub children: Option<Vec<Elem>>,
}

/// Mathematical value of an [`Attr`].
pub struct AttrModel {
    pub name: Seq<char>,
    pub value: Seq<char>,
}

/// Mathematical value of a [`Cont`].
pub enum ContModel {
    Line(Seq<char>),
    Block(Seq<Seq<char>>),
}

/// Mathematical value of an [`Elem`]: the same tree, with text as character sequences.
pub struct ElemModel {
    pub tag: Seq<char>,
    pub id: Option<Seq<char>>,
    pub classes: Option<Seq<Seq<char>>>,
    pub attributes: Option<Seq<AttrModel>>,
    pub cont: Option<ContModel>,
    pub children: Option<Seq<ElemModel>>,
}

impl View for Attr {
    type V = AttrModel;

    open spec fn view(&self) -> AttrModel {
        AttrModel { name: self.name@, value: self.value@ }
    }
}

impl View for Cont {
    type V = ContModel;

    open spec fn view(&self) -> ContModel {
        match self {
            Cont::LINE(s) => ContModel::Line(s@),
            Cont::BLOCK(v) => ContModel::Block(v.deep_view()),
        }
    }
}

pub open spec fn opt_text_view(o: Option<String>) -> Option<Seq<char>> {
    match o {
        Some(s) => Some(s@),
        None => None,
    }
}

pub open spec fn opt_texts_view(o: Option<Vec<String>>) -> Option<Seq<Seq<char>>> {
    match o {
        Some(v) => Some(v.deep_view()),
        None => None,
    }
}

pub open spec fn attrs_view(s: Seq<Attr>) -> Seq<AttrModel> {
    s.map_values(|a: Attr| a@)
}

pub open spec fn opt_attrs_view(o: Option<Vec<Attr>>) -> Option<Seq<AttrModel>> {
    match o {
        Some(v) => Some(attrs_view(v@)),
        None => None,
    }
}

pub open spec fn opt_cont_view(o: Option<Cont>) -> Option<ContModel> {
    match o {
        Some(c) => Some(c@),
        None => None,
    }
}

/// The model of an element, built over its whole subtree.
pub open spec fn elem_view(e: Elem) -> ElemModel
    decreases e,
{
    ElemModel {
        tag: e.tag@,
        id: opt_text_view(e.id),
        classes: opt_texts_view(e.classes),
        attributes: opt_attrs_view(e.attributes),
        cont: opt_cont_view(e.cont),
        children: match e.children {
            Some(v) => Some(elems_view(v@)),
            None => None,
        },
    }
}

/// The models of a sequence of elements, in order.
pub open spec fn elems_view(s: Seq<Elem>) -> Seq<ElemModel>
    decreases s,
{
    if s.len() == 0 {
        Seq::empty()
    } else {
        elems_view(s.drop_last()).push(elem_view(s.last()))
    }
}

impl View for Elem {
    type V = ElemModel;

    open spec fn view(&self) -> ElemModel {
        elem_view(*self)
    }
}

/// A well-formed element: its tag is not empty, it does not have both content and
/// children, and its children are well-formed.
pub open spec fn elem_wf(m: ElemModel) -> bool
    decreases m,
{
    &&& m.tag.len() > 0
    &&& !(m.cont is Some && m.children is Some)
    &&& match m.children {
        Some(c) => forest_wf(c),
        None => true,
    }
}

/// Every element of the sequence is well-formed.
pub open spec fn forest_wf(s: Seq<ElemModel>) -> bool
    decreases s,
{
    s.len() == 0 || (forest_wf(s.drop_last()) && elem_wf(s.last()))
}

/// `elems_view` keeps the length and maps each position.
pub proof fn lemma_elems_view(s: Seq<Elem>)
    ensures
        elems_view(s).len() == s.len(),
        forall|i: int| 0 <= i < s.len() ==> #[trigger] elems_view(s)[i] == elem_view(s[i]),
    decreases s.len(),
{
    if s.len() > 0 {
        lemma_elems_view(s.drop_last());
    }
}

/// Appending an element appends its model.
pub proof fn lemma_elems_view_push(s: Seq<Elem>, e: Elem)
    ensures
        elems_view(s.push(e)) == elems_view(s).push(elem_view(e)),
{
    assert(s.push(e).drop_last() =~= s);
}

/// The model of an element with the given fields and no children.
pub open spec fn leaf_model(
    tag: Seq<char>,
    id: Option<Seq<char>>,
    classes: Option<Seq<Seq<char>>>,
    attributes: Option<Seq<AttrModel>>,
    cont: Option<ContModel>,
) -> ElemModel {
    ElemModel { tag, id, classes, attributes, cont, children: None }
}

impl Elem {
    /// An element with an empty tag and nothing else.
    pub fn default() -> (r: Elem)
        ensures
            r@ == leaf_model(Seq::empty(), None, None, None, None),
    {
        Elem {
            tag: String::new(),
            id: None,
            classes: None,
            attributes: None,
            cont: None,
            children: None,
        }
    }

    /// An element with a tag.
    pub fn from_ta(tag: &str) -> (r: Elem)
        ensures
            r@ == leaf_model(tag@, None, None, None, None),
    {
        Elem {
            tag: String::from_str(tag),
            id: None,
            classes: None,
            attributes: None,
            cont: None,
            children: None,
        }
    }

    /// An element with a tag and an inline content line.
    pub fn from_ta_col(tag: &str, cont: &str) -> (r: Elem)
        ensures
            r@ == leaf_model(tag@, None, None, None, Some(ContModel::Line(cont@))),
    {
        Elem {
            tag: String::from_str(tag),
            id: None,
            classes: None,
            attributes: None,
            cont: Some(Cont::LINE(String::from_str(cont))),
            children: None,
        }
    }

    /// An element with a tag and a content block.
    pub fn from_ta_cob(tag: &str, cont: Vec<String>) -> (r: Elem)
        ensures
            r@ == leaf_model(tag@, None, None, None, Some(ContModel::Block(cont.deep_view()))),
    {
        Elem {
            tag: String::from_str(tag),
            id: None,
            classes: None,
            attributes: None,
            cont: Some(Cont::BLOCK(cont)),
            children: None,
        }
    }

    /// An element with a tag and child elements.
    pub fn from_ta_ch(tag: &str, children: Vec<Elem>) -> (r: Elem)
        ensures
            r@ == (ElemModel {
                tag: tag@,
                id: None,
                classes: None,
                attributes: None,
                cont: None,
                children: Some(elems_view(children@)),
            }),
    {
        Elem {
            tag: String::from_str(tag),
            id: None,
            classes: None,
            attributes: None,
            cont: None,
            children: Some(children),
        }
    }

    /// An element with a tag and classes.
    pub fn from_ta_cl(tag: &str, classes: Vec<String>) -> (r: Elem)
        ensures
            r@ == leaf_model(tag@, None, Some(classes.deep_view()), None, None),
    {
        Elem {
            tag: String::from_str(tag),
            id: None,
            classes: Some(classes),
            attributes: None,
            cont: None,
            children: None,
        }
    }

    /// An element with a tag and an id.
    pub fn from_ta_id(tag: &str, id: &str) -> (r: Elem)
        ensures
            r@ == leaf_model(tag@, Some(id@), None, None, None),
    {
        Elem {
            tag: String::from_str(tag),
            id: Some(String::from_str(id)),
            classes: None,
            attributes: None,
            cont: None,
            children: None,
        }
    }

    /// An element with a tag, an id and classes.
    pub fn from_ta_id_cl(tag: &str, id: &str, classes: Vec<String>) -> (r: Elem)
        ensures
            r@ == leaf_model(tag@, Some(id@), Some(classes.deep_view()), None, None),
    {
        Elem {
            tag: String::from_str(tag),
            id: Some(String::from_str(id)),
            classes: Some(classes),
            attributes: None,
            cont: None,
            children: None,
        }
    }

    /// An element with a tag, an id, classes and a content block.
    pub fn from_ta_id_cl_cob(
        tag: &str,
        id: &str,
        classes: Vec<String>,
        content: Vec<String>,
    ) -> (r: Elem)
        ensures
            r@ == leaf_model(
                tag@,
                Some(id@),
                Some(classes.deep_view()),
                None,
                Some(ContModel::Block(content.deep_view())),
            ),
    {
        Elem {
            tag: String::from_str(tag),
            id: Some(String::from_str(id)),
            classes: Some(classes),
            attributes: None,
            cont: Some(Cont::BLOCK(content)),
            children: None,
        }
    }

    /// An element with a tag and attributes.
    pub fn from_ta_at(tag: &str, attributes: Vec<Attr>) -> (r: Elem)
        ensures
            r@ == leaf_model(tag@, None, None, Some(attrs_view(attributes@)), None),
    {
        Elem {
            tag: String::from_str(tag),
            id: None,
            classes: None,
            attributes: Some(attributes),
            cont: None,
            children: None,
        }
    }

    /// An element with a tag, attributes and child elements.
    pub fn from_ta_at_ch(tag: &str, attributes: Vec<Attr>, children: Vec<Elem>) -> (r: Elem)
        ensures
            r@ == (ElemModel {
                tag: tag@,
                id: None,
                classes: None,
                attributes: Some(attrs_view(attributes@)),
                cont: None,
                children: Some(elems_view(children@)),
            }),
    {
        Elem {
            tag: String::from_str(tag),
            id: None,
            classes: None,
            attributes: Some(attributes),
            cont: None,
            children: Some(children),
        }
    }

    /// An element with a tag, attributes and a content block.
    pub fn from_ta_at_cob(tag: &str, attributes: Vec<Attr>, content: Vec<String>) -> (r: Elem)
        ensures
            r@ == leaf_model(
                tag@,
                None,
                None,
                Some(attrs_view(attributes@)),
                Some(ContModel::Block(content.deep_view())),
            ),
    {
        Elem {
            tag: String::from_str(tag),
            id: None,
            classes: None,
            attributes: Some(attributes),
            cont: Some(Cont::BLOCK(content)),
            children: None,
        }
    }
}

impl Attr {
    /// An attribute with an empty name and an empty value.
    pub fn default() -> (r: Attr)
        ensures
            r@ == (AttrModel { name: Seq::empty(), value: Seq::empty() }),
    {
        Attr { name: String::new(), value: String::new() }
    }
}

} // verus!
