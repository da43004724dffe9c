//! The node tree that the tree builder produces.
//!
//! A node owns its first child and its next sibling, so a node together with
//! what it owns is a forest: the node's own subtree and those of the siblings
//! after it. Document order is the order node, children, following siblings.

use crate::renderer::html::attribute::{
    attributes_model, clone_attributes, Attribute, AttributeModel,
};
use crate::text::str_is;
use vstd::prelude::*;

verus! {

/// The element names that the engine treats specially.
#[derive(Debug, Clone, Copy, PartialEq, Eq, Structural)]
pub enum ElementKind {
    Html,
    Head,
    Style,
    Script,
    Body,
    P,
    H1,
    H2,
    A,
}

impl ElementKind {
    /// The tag name of the kind.
    pub open spec fn name(self) -> Seq<char> {
        match self {
            ElementKind::Html => "html"@,
            ElementKind::Head => "head"@,
            ElementKind::Style => "style"@,
            ElementKind::Script => "script"@,
            ElementKind::Body => "body"@,
            ElementKind::P => "p"@,
            ElementKind::H1 => "h1"@,
            ElementKind::H2 => "h2"@,
            ElementKind::A => "a"@,
        }
    }

    /// The kind with the given tag name, if there is one.
    pub open spec fn of_name(tag: Seq<char>) -> Option<ElementKind> {
        if tag == "html"@ {
            Some(ElementKind::Html)
        } else if tag == "head"@ {
            Some(ElementKind::Head)
        } else if tag == "style"@ {
            Some(ElementKind::Style)
        } else if tag == "script"@ {
            Some(ElementKind::Script)
        } else if tag == "body"@ {
            Some(ElementKind::Body)
        } else if tag == "p"@ {
            Some(ElementKind::P)
        } else if tag == "h1"@ {
            Some(ElementKind::H1)
        } else if tag == "h2"@ {
            Some(ElementKind::H2)
        } else if tag == "a"@ {
            Some(ElementKind::A)
        } else {
            None
        }
    }

    pub fn as_str(self) -> (r: &'static str)
        ensures
            r@ == self.name(),
    {
        match self {
            ElementKind::Html => "html",
            ElementKind::Head => "head",
            ElementKind::Style => "style",
            ElementKind::Script => "script",
            ElementKind::Body => "body",
            ElementKind::P => "p",
            ElementKind::H1 => "h1",
            ElementKind::H2 => "h2",
            ElementKind::A => "a",
        }
    }

    pub fn from_str(s: &String) -> (r: Option<ElementKind>)
        ensures
            r == Self::of_name(s@),
    {
        if str_is(s, "html") {
            Some(ElementKind::Html)
        } else if str_is(s, "head") {
            Some(ElementKind::Head)
        } else if str_is(s, "style") {
            Some(ElementKind::Style)
        } else if str_is(s, "script") {
            Some(ElementKind::Script)
        } else if str_is(s, "body") {
            Some(ElementKind::Body)
        } else if str_is(s, "p") {
            Some(ElementKind::P)
        } else if str_is(s, "h1") {
            Some(ElementKind::H1)
        } else if str_is(s, "h2") {
            Some(ElementKind::H2)
        } else if str_is(s, "a") {
            Some(ElementKind::A)
        } else {
            None
        }
    }
}

/// An element: its tag name and its attributes in the order written.
#[derive(Debug, PartialEq, Eq)]
pub struct Element {
    pub tag: String,
    pub attributes: Vec<Attribute>,
}

pub struct ElementModel {
    pub tag: Seq<char>,
    pub attributes: Seq<AttributeModel>,
}

impl View for Element {
    type V = ElementModel;

    open spec fn view(&self) -> ElementModel {
        ElementModel { tag: self.tag@, attributes: attributes_model(self.attributes@) }
    }
}

impl Clone for Element {
    fn clone(&self) -> (r: Self)
        ensures
            r@ == self@,
    {
        Element { tag: self.tag.clone(), attributes: clone_attributes(&self.attributes) }
    }
}

impl Element {
    pub fn new(element_name: &str, attributes: Vec<Attribute>) -> (e: Self)
        ensures
            e@ == (ElementModel {
                tag: element_name@,
                attributes: attributes_model(attributes@),
            }),
    {
        Element { tag: String::from_str(element_name), attributes }
    }

    /// The special kind of the element, if its tag names one.
    pub fn kind(&self) -> (r: Option<ElementKind>)
        ensures
            r == ElementKind::of_name(self@.tag),
    {
        ElementKind::from_str(&self.tag)
    }

    pub fn tag(&self) -> (r: String)
        ensures
            r@ == self@.tag,
    {
        self.tag.clone()
    }

    pub fn attributes(&self) -> (r: Vec<Attribute>)
        ensures
            attributes_model(r@) == self@.attributes,
    {
        clone_attributes(&self.attributes)
    }
}

/// What a node is.
#[derive(Debug, PartialEq, Eq)]
pub enum NodeKind {
    Document,
    Element(Element),
    Text(String),
}

pub enum NodeKindModel {
    Document,
    Element(ElementModel),
    Text(Seq<char>),
}

impl View for NodeKind {
    type V = NodeKindModel;

    open spec fn view(&self) -> NodeKindModel {
        match self {
            NodeKind::Document => NodeKindModel::Document,
            NodeKind::Element(e) => NodeKindModel::Element(e@),
            NodeKind::Text(t) => NodeKindModel::Text(t@),
        }
    }
}

impl Clone for NodeKind {
    fn clone(&self) -> (r: Self)
        ensures
            r@ == self@,
    {
        match self {
            NodeKind::Document => NodeKind::Document,
            NodeKind::Element(e) => NodeKind::Element(e.clone()),
            NodeKind::Text(t) => NodeKind::Text(t.clone()),
        }
    }
}

/// A node with the forest it owns.
#[derive(Debug, PartialEq, Eq)]
pub struct Node {
    pub kind: NodeKind,
    pub first_child: Option<Box<Node>>,
    pub next_sibling: Option<Box<Node>>,
}

pub struct NodeModel {
    pub kind: NodeKindModel,
    pub first_child: Option<Box<NodeModel>>,
    pub next_sibling: Option<Box<NodeModel>>,
}

/// The model of a sibling chain: of its first node, which holds the rest.
pub open spec fn chain_model(chain: Option<Box<Node>>) -> Option<Box<NodeModel>>
    decreases chain,
{
    match chain {
        None => None,
        Some(n) => Some(
            Box::new(
                NodeModel {
                    kind: n.kind@,
                    first_child: chain_model(n.first_child),
                    next_sibling: chain_model(n.next_sibling),
                },
            ),
        ),
    }
}

impl View for Node {
    type V = NodeModel;

    open spec fn view(&self) -> NodeModel {
        NodeModel {
            kind: self.kind@,
            first_child: chain_model(self.first_child),
            next_sibling: chain_model(self.next_sibling),
        }
    }
}

/// The number of nodes in a forest.
pub open spec fn node_count(chain: Option<Box<NodeModel>>) -> nat
    decreases chain,
{
    match chain {
        None => 0,
        Some(n) => 1 + node_count(n.first_child) + node_count(n.next_sibling),
    }
}

/// The text of a forest: the contents of its text nodes, concatenated in
/// document order.
pub open spec fn chain_text(chain: Option<Box<NodeModel>>) -> Seq<char>
    decreases chain,
{
    match chain {
        None => Seq::empty(),
        Some(n) => own_text(n.kind) + chain_text(n.first_child) + chain_text(n.next_sibling),
    }
}

pub open spec fn own_text(kind: NodeKindModel) -> Seq<char> {
    match kind {
        NodeKindModel::Text(t) => t,
        _ => Seq::empty(),
    }
}

/// Whether a forest is free of document nodes, as everything below the root
/// of a tree is.
pub open spec fn is_content(chain: Option<Box<NodeModel>>) -> bool
    decreases chain,
{
    match chain {
        None => true,
        Some(n) => !(n.kind is Document) && is_content(n.first_child) && is_content(
            n.next_sibling,
        ),
    }
}

/// Whether a forest holds its text in single nodes: no text node has a text
/// node as its next sibling.
pub open spec fn texts_apart(chain: Option<Box<NodeModel>>) -> bool
    decreases chain,
{
    match chain {
        None => true,
        Some(n) => !(n.kind is Text && starts_with_text(n.next_sibling)) && texts_apart(
            n.first_child,
        ) && texts_apart(n.next_sibling),
    }
}

/// Whether the first node of a forest is a text node.
pub open spec fn starts_with_text(chain: Option<Box<NodeModel>>) -> bool {
    chain matches Some(n) && n.kind is Text
}

impl NodeModel {
    /// Whether the node is the root of a whole tree: a document node without
    /// siblings, above content only.
    pub open spec fn is_document_root(self) -> bool {
        self.kind is Document && self.next_sibling is None && is_content(self.first_child)
    }
}

impl Node {
    /// A node of the given kind without children or siblings.
    pub fn new(kind: NodeKind) -> (n: Self)
        ensures
            n@ == (NodeModel { kind: kind@, first_child: None, next_sibling: None }),
    {
        Node { kind, first_child: None, next_sibling: None }
    }

    pub fn kind(&self) -> (r: &NodeKind)
        ensures
            *r == self.kind,
    {
        &self.kind
    }

    pub fn first_child(&self) -> (r: &Option<Box<Node>>)
        ensures
            *r == self.first_child,
    {
        &self.first_child
    }

    pub fn next_sibling(&self) -> (r: &Option<Box<Node>>)
        ensures
            *r == self.next_sibling,
    {
        &self.next_sibling
    }

    /// Replaces the children of the node by the given forest.
    pub fn set_first_child(&mut self, first_child: Option<Box<Node>>)
        ensures
            final(self)@ == (NodeModel { first_child: chain_model(first_child), ..old(self)@ }),
    {
        self.first_child = first_child;
    }
}

/// The frame that holds a document.
#[derive(Debug, PartialEq, Eq)]
pub struct Window {
    pub document: Node,
}

impl Window {
    /// A window on an empty document.
    pub fn new() -> (w: Self)
        ensures
            w.document@ == (NodeModel {
                kind: NodeKindModel::Document,
                first_child: None,
                next_sibling: None,
            }),
    {
        Window { document: Node::new(NodeKind::Document) }
    }

    pub fn document(&self) -> (r: &Node)
        ensures
            *r == self.document,
    {
        &self.document
    }
}

} // verus!
