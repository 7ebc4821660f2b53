//! The element tree that parsing produces and rendering consumes.

use vstd::prelude::*;

verus! {

/// The kind of a container element.
#[derive(Clone, Copy, Debug, PartialEq, Eq, Structural)]
pub enum ContainerType {
    Bold,
    Italics,
    Underline,
    Strikethrough,
    Deletion,
    Insertion,
    Mark,
    Superscript,
    Subscript,
    Monospace,
    Span,
    Div,
    Blockquote,
    Paragraph,
}

impl ContainerType {
    /// The name of this container type.
    pub fn name(self) -> (r: &'static str)
        ensures
            r@ == self.spec_name(),
    {
        match self {
            ContainerType::Bold => "bold",
            ContainerType::Italics => "italics",
            ContainerType::Underline => "underline",
            ContainerType::Strikethrough => "strikethrough",
            ContainerType::Deletion => "deletion",
            ContainerType::Insertion => "insertion",
            ContainerType::Mark => "mark",
            ContainerType::Superscript => "superscript",
            ContainerType::Subscript => "subscript",
            ContainerType::Monospace => "monospace",
            ContainerType::Span => "span",
            ContainerType::Div => "div",
            ContainerType::Blockquote => "blockquote",
            ContainerType::Paragraph => "paragraph",
        }
    }

    pub open spec fn spec_name(self) -> Seq<char> {
        match self {
            ContainerType::Bold => "bold"@,
            ContainerType::Italics => "italics"@,
            ContainerType::Underline => "underline"@,
            ContainerType::Strikethrough => "strikethrough"@,
            ContainerType::Deletion => "deletion"@,
            ContainerType::Insertion => "insertion"@,
            ContainerType::Mark => "mark"@,
            ContainerType::Superscript => "superscript"@,
            ContainerType::Subscript => "subscript"@,
            ContainerType::Monospace => "monospace"@,
            ContainerType::Span => "span"@,
            ContainerType::Div => "div"@,
            ContainerType::Blockquote => "blockquote"@,
            ContainerType::Paragraph => "paragraph"@,
        }
    }

    /// The HTML tag that a container of this type renders as.
    pub fn html_tag(self) -> (r: &'static str)
        ensures
            r@ == self.spec_html_tag(),
    {
        match self {
            ContainerType::Bold => "strong",
            ContainerType::Italics => "em",
            ContainerType::Underline => "u",
            ContainerType::Strikethrough => "s",
            ContainerType::Deletion => "del",
            ContainerType::Insertion => "ins",
            ContainerType::Mark => "mark",
            ContainerType::Superscript => "sup",
            ContainerType::Subscript => "sub",
            ContainerType::Monospace => "code",
            ContainerType::Span => "span",
            ContainerType::Div => "div",
            ContainerType::Blockquote => "blockquote",
            ContainerType::Paragraph => "p",
        }
    }

    pub open spec fn spec_html_tag(self) -> Seq<char> {
        match self {
            ContainerType::Bold => "strong"@,
            ContainerType::Italics => "em"@,
            ContainerType::Underline => "u"@,
            ContainerType::Strikethrough => "s"@,
            ContainerType::Deletion => "del"@,
            ContainerType::Insertion => "ins"@,
            ContainerType::Mark => "mark"@,
            ContainerType::Superscript => "sup"@,
            ContainerType::Subscript => "sub"@,
            ContainerType::Monospace => "code"@,
            ContainerType::Span => "span"@,
            ContainerType::Div => "div"@,
            ContainerType::Blockquote => "blockquote"@,
            ContainerType::Paragraph => "p"@,
        }
    }
}

/// One parsed unit of a document.
#[derive(Debug, PartialEq, Eq)]
pub enum Element {
    /// A typed container with children and attributes.
    Container(Container),
    /// Plain text.
    Text(String),
    /// A footnote reference, holding the footnote's text.
    Footnote(String),
    /// The place where the list of footnotes goes, with an optional title.
    FootnoteBlock(Option<String>),
}

/// A container element: a type, ordered children, and attributes with
/// unique keys.
#[derive(Debug, PartialEq, Eq)]
pub struct Container {
    pub ctype: ContainerType,
    pub elements: Vec<Element>,
    pub attributes: Vec<(String, String)>,
}

impl Container {
    /// A container of the given type, children and attributes; no two
    /// attributes may share a key.
    pub fn new(ctype: ContainerType, elements: Vec<Element>, attributes: Vec<(String, String)>) -> (r: Container)
        requires
            keys_unique(attrs_model(attributes@)),
        ensures
            r == (Container { ctype, elements, attributes }),
    {
        Container { ctype, elements, attributes }
    }
}

/// An attribute list as key and value character sequences.
pub type AttrsModel = Seq<(Seq<char>, Seq<char>)>;

/// No two attributes share a key.
pub open spec fn keys_unique(attrs: AttrsModel) -> bool {
    forall|a: int, b: int|
        0 <= a < b < attrs.len() ==> (#[trigger] attrs[a]).0 != (#[trigger] attrs[b]).0
}

/// The mathematical form of an element.
pub enum ElementModel {
    Container(ContainerType, Seq<ElementModel>, AttrsModel),
    Text(Seq<char>),
    Footnote(Seq<char>),
    FootnoteBlock(Option<Seq<char>>),
}

pub open spec fn attrs_model(a: Seq<(String, String)>) -> AttrsModel {
    a.map_values(|p: (String, String)| (p.0@, p.1@))
}

pub open spec fn option_model(o: Option<String>) -> Option<Seq<char>> {
    match o {
        Some(t) => Some(t@),
        None => None,
    }
}

/// The model of one element.
pub open spec fn model_of(e: Element) -> ElementModel
    decreases e,
{
    match e {
        Element::Container(c) => {
            proof {
                assert(decreases_to!(c.elements => c.elements@)) by {
                    vstd::std_specs::vec::axiom_vec_decreases_to_view(c.elements);
                }
            }
            ElementModel::Container(c.ctype, models_of(c.elements@), attrs_model(c.attributes@))
        },
        Element::Text(t) => ElementModel::Text(t@),
        Element::Footnote(t) => ElementModel::Footnote(t@),
        Element::FootnoteBlock(t) => ElementModel::FootnoteBlock(option_model(t)),
    }
}

/// The models of a sequence of elements.
pub open spec fn models_of(es: Seq<Element>) -> Seq<ElementModel>
    decreases es,
{
    if es.len() == 0 {
        seq![]
    } else {
        proof {
            vstd::seq::axiom_seq_index_decreases(es, es.len() - 1);
            vstd::seq::axiom_seq_subrange_decreases(es, 0, es.len() - 1);
        }
        models_of(es.drop_last()).push(model_of(es.last()))
    }
}

/// Appending an element appends its model.
pub proof fn lemma_models_push(es: Seq<Element>, e: Element)
    ensures
        models_of(es.push(e)) == models_of(es).push(model_of(e)),
{
    assert(es.push(e).drop_last() =~= es);
}

} // verus!
