//! Queries on the node tree.

use crate::renderer::dom::node::{
    chain_model, is_content, ElementKind, Node, NodeKind, NodeKindModel, NodeModel,
};
use crate::renderer::html::attribute::{has_attribute, has_attribute_with};
use crate::text::str_is;
use vstd::prelude::*;

verus! {

/// The part of a forest that starts at its first element, in document order,
/// with the given tag name; `None` if the forest holds no such element.
pub open spec fn find_element(chain: Option<Box<NodeModel>>, tag: Seq<char>) -> Option<
    Box<NodeModel>,
>
    decreases chain,
{
    match chain {
        None => None,
        Some(n) => if is_element_named(n.kind, tag) {
            chain
        } else if find_element(n.first_child, tag) is Some {
            find_element(n.first_child, tag)
        } else {
            find_element(n.next_sibling, tag)
        },
    }
}

pub open spec fn is_element_named(kind: NodeKindModel, tag: Seq<char>) -> bool {
    kind matches NodeKindModel::Element(e) && e.tag == tag
}

/// The stylesheet text of a document: the text of the first child of its first
/// `style` element, or nothing where there is no such element or it does not
/// start with text.
pub open spec fn style_content(chain: Option<Box<NodeModel>>) -> Seq<char> {
    match find_element(chain, ElementKind::Style.name()) {
        Some(style) => match style.first_child {
            Some(child) => match child.kind {
                NodeKindModel::Text(t) => t,
                _ => Seq::empty(),
            },
            None => Seq::empty(),
        },
        None => Seq::empty(),
    }
}

/// Finds the first element of the given kind in a forest, in document order.
/// The result is the place in the forest that holds it, or an empty place.
pub fn get_target_element_node<'a>(
    node: &'a Option<Box<Node>>,
    element_kind: ElementKind,
) -> (r: &'a Option<Box<Node>>)
    ensures
        chain_model(*r) == find_element(chain_model(*node), element_kind.name()),
    decreases *node,
{
    match node {
        None => node,
        Some(n) => {
            let found = match &n.kind {
                NodeKind::Element(e) => str_is(&e.tag, element_kind.as_str()),
                _ => false,
            };
            if found {
                node
            } else {
                let r = get_target_element_node(&n.first_child, element_kind);
                if r.is_some() {
                    r
                } else {
                    get_target_element_node(&n.next_sibling, element_kind)
                }
            }
        },
    }
}

/// The stylesheet text that a document carries.
pub fn get_style_content(root: &Option<Box<Node>>) -> (r: String)
    ensures
        r@ == style_content(chain_model(*root)),
{
    proof {
        reveal_with_fuel(chain_model, 3);
    }
    match get_target_element_node(root, ElementKind::Style) {
        Some(style) => match &style.first_child {
            Some(child) => match &child.kind {
                NodeKind::Text(t) => t.clone(),
                _ => String::new(),
            },
            None => String::new(),
        },
        None => String::new(),
    }
}

/// Whether a node is an element with an `id` attribute of the given value.
pub open spec fn has_id(kind: NodeKindModel, id: Seq<char>) -> bool {
    kind matches NodeKindModel::Element(e) && has_attribute(e.attributes, "id"@, id)
}

/// The part of a forest that starts at its first element, in document order,
/// with the given id; `None` if the forest holds no such element.
pub open spec fn find_by_id(chain: Option<Box<NodeModel>>, id: Seq<char>) -> Option<
    Box<NodeModel>,
>
    decreases chain,
{
    match chain {
        None => None,
        Some(n) => if has_id(n.kind, id) {
            chain
        } else if find_by_id(n.first_child, id) is Some {
            find_by_id(n.first_child, id)
        } else {
            find_by_id(n.next_sibling, id)
        },
    }
}

/// The forest in which the first element with the given id has a single
/// text node as its children; the forest itself if it holds no such element.
pub open spec fn with_text_content(
    chain: Option<Box<NodeModel>>,
    id: Seq<char>,
    text: Seq<char>,
) -> Option<Box<NodeModel>>
    decreases chain,
{
    match chain {
        None => None,
        Some(n) => if has_id(n.kind, id) {
            Some(
                Box::new(
                    NodeModel {
                        first_child: Some(
                            Box::new(
                                NodeModel {
                                    kind: NodeKindModel::Text(text),
                                    first_child: None,
                                    next_sibling: None,
                                },
                            ),
                        ),
                        ..*n
                    },
                ),
            )
        } else if find_by_id(n.first_child, id) is Some {
            Some(
                Box::new(
                    NodeModel { first_child: with_text_content(n.first_child, id, text), ..*n },
                ),
            )
        } else {
            Some(
                Box::new(
                    NodeModel { next_sibling: with_text_content(n.next_sibling, id, text), ..*n },
                ),
            )
        },
    }
}

/// Giving an element a text as its content keeps content content, and
/// changes nothing where no element has the id.
pub proof fn lemma_with_text_content(chain: Option<Box<NodeModel>>, id: Seq<char>, text: Seq<char>)
    ensures
        is_content(chain) ==> is_content(with_text_content(chain, id, text)),
        find_by_id(chain, id) is None ==> with_text_content(chain, id, text) == chain,
    decreases chain,
{
    match chain {
        None => {},
        Some(n) => {
            lemma_with_text_content(n.first_child, id, text);
            lemma_with_text_content(n.next_sibling, id, text);
            let leaf = NodeModel {
                kind: NodeKindModel::Text(text),
                first_child: None,
                next_sibling: None,
            };
            assert(is_content(Some(Box::new(leaf)))) by {
                reveal_with_fuel(is_content, 2);
            }
        },
    }
}

fn node_has_id(kind: &NodeKind, id_name: &String) -> (r: bool)
    ensures
        r == has_id(kind@, id_name@),
{
    match kind {
        NodeKind::Element(e) => has_attribute_with(&e.attributes, "id", id_name),
        _ => false,
    }
}

/// Finds the first element with the given id in a forest, in document order.
/// The result is the place in the forest that holds it, or an empty place.
pub fn get_element_by_id<'a>(node: &'a Option<Box<Node>>, id_name: &String) -> (r: &'a Option<
    Box<Node>,
>)
    ensures
        chain_model(*r) == find_by_id(chain_model(*node), id_name@),
    decreases *node,
{
    match node {
        None => node,
        Some(n) => {
            if node_has_id(&n.kind, id_name) {
                node
            } else {
                let r = get_element_by_id(&n.first_child, id_name);
                if r.is_some() {
                    r
                } else {
                    get_element_by_id(&n.next_sibling, id_name)
                }
            }
        },
    }
}

/// Replaces the children of the first element with the given id by a single
/// text node. The result tells whether there is such an element.
pub fn set_text_content(node: &mut Option<Box<Node>>, id_name: &String, text: &String) -> (r: bool)
    ensures
        chain_model(*final(node)) == with_text_content(chain_model(*old(node)), id_name@, text@),
        r == (find_by_id(chain_model(*old(node)), id_name@) is Some),
    decreases *old(node),
{
    match node {
        None => false,
        Some(n) => {
            proof {
                lemma_with_text_content(chain_model(n.first_child), id_name@, text@);
                lemma_with_text_content(chain_model(n.next_sibling), id_name@, text@);
            }
            if node_has_id(&n.kind, id_name) {
                let leaf = Node::new(NodeKind::Text(text.clone()));
                assert(chain_model(Some(Box::new(leaf))) == Some(Box::new(leaf@)));
                n.first_child = Some(Box::new(leaf));
                true
            } else if set_text_content(&mut n.first_child, id_name, text) {
                true
            } else {
                set_text_content(&mut n.next_sibling, id_name, text)
            }
        },
    }
}

/// Whether a forest holds no document node.
fn holds_content(chain: &Option<Box<Node>>) -> (r: bool)
    ensures
        r == is_content(chain_model(*chain)),
    decreases *chain,
{
    match chain {
        None => true,
        Some(n) => !matches!(n.kind, NodeKind::Document) && holds_content(&n.first_child)
            && holds_content(&n.next_sibling),
    }
}

/// Whether a node is the root of a whole tree: a document node without
/// siblings, above content only.
pub fn is_document_root(root: &Node) -> (r: bool)
    ensures
        r == root@.is_document_root(),
{
    matches!(root.kind, NodeKind::Document) && root.next_sibling.is_none() && holds_content(
        &root.first_child,
    )
}

} // verus!
