//! The tree builder: from the tokens of a document to its node tree.
//!
//! The builder keeps the elements that are still open, the innermost last,
//! below the document itself. A new node becomes the last child of the
//! innermost open element.

use crate::renderer::dom::node::{
    chain_model, chain_text, is_content, own_text, starts_with_text, texts_apart, Element,
    ElementModel, Node, NodeKind, NodeKindModel, NodeModel, Window,
};
use crate::renderer::html::token::{
    chars_as_tokens, is_markup, is_plain, lemma_plain_text, lemma_step, lemma_tag_end,
    lemma_tag_run, lemma_tokens_unfold, name_start, no_raw_text, outside_tags, starts_raw_text,
    tag_close, HtmlToken, HtmlTokenModel, HtmlTokenizer, HtmlTokenizerModel, State, TagPart,
};
use vstd::prelude::*;

verus! {

/// A node that is still open: what it is, and its children so far. Each child
/// stands without its siblings.
pub struct OpenModel {
    pub kind: NodeKindModel,
    pub children: Seq<NodeModel>,
}

/// The chain of the given nodes, each with its own children, followed by
/// `tail`.
pub open spec fn link_onto(children: Seq<NodeModel>, tail: Option<Box<NodeModel>>) -> Option<
    Box<NodeModel>,
>
    decreases children.len(),
{
    if children.len() == 0 {
        tail
    } else {
        link_onto(
            children.drop_last(),
            Some(Box::new(NodeModel { next_sibling: tail, ..children.last() })),
        )
    }
}

/// The chain of the given nodes.
pub open spec fn link(children: Seq<NodeModel>) -> Option<Box<NodeModel>> {
    link_onto(children, None)
}

impl OpenModel {
    /// The node once it is closed, without siblings.
    pub open spec fn closed(self) -> NodeModel {
        NodeModel { kind: self.kind, first_child: link(self.children), next_sibling: None }
    }

    /// The node with one more child.
    pub open spec fn with_child(self, child: NodeModel) -> OpenModel {
        OpenModel { children: self.children.push(child), ..self }
    }

    /// The node with one more character of text: at the end of its last
    /// child, if that is text, else in a new last child.
    pub open spec fn with_char(self, c: char) -> OpenModel {
        if self.children.len() > 0 && self.children.last().kind is Text {
            OpenModel {
                children: self.children.drop_last().push(
                    NodeModel {
                        kind: NodeKindModel::Text(self.children.last().kind->Text_0.push(c)),
                        ..self.children.last()
                    },
                ),
                ..self
            }
        } else {
            self.with_child(leaf(NodeKindModel::Text(seq![c])))
        }
    }
}

/// A node without children and siblings.
pub open spec fn leaf(kind: NodeKindModel) -> NodeModel {
    NodeModel { kind, first_child: None, next_sibling: None }
}

/// The open nodes after the innermost has been closed and has become the last
/// child of the one around it.
pub open spec fn fold_top(stack: Seq<OpenModel>) -> Seq<OpenModel> {
    stack.drop_last().drop_last().push(
        stack[stack.len() - 2].with_child(stack.last().closed()),
    )
}

/// The open nodes after the innermost have been closed until only `k` are
/// left.
pub open spec fn close_to(stack: Seq<OpenModel>, k: int) -> Seq<OpenModel>
    decreases stack.len(),
{
    if stack.len() > k && stack.len() >= 2 {
        close_to(fold_top(stack), k)
    } else {
        stack
    }
}

/// The index of the innermost open element with the given tag name, or 0 if
/// no such element is open.
pub open spec fn innermost_open(stack: Seq<OpenModel>, tag: Seq<char>) -> int
    decreases stack.len(),
{
    if stack.len() <= 1 {
        0
    } else if stack.last().kind matches NodeKindModel::Element(e) && e.tag == tag {
        stack.len() - 1
    } else {
        innermost_open(stack.drop_last(), tag)
    }
}

/// The open nodes after a token.
///
/// A start tag opens an element, unless it closes itself: then the element
/// becomes a child at once. An end tag closes the innermost open element
/// with its name and every element inside that; it does nothing where no
/// such element is open. A character goes to the text at the end of the
/// innermost open node.
pub open spec fn apply_token(stack: Seq<OpenModel>, token: HtmlTokenModel) -> Seq<OpenModel> {
    match token {
        HtmlTokenModel::StartTag { tag, self_closing, attributes } => {
            let kind = NodeKindModel::Element(ElementModel { tag, attributes });
            if self_closing {
                stack.drop_last().push(stack.last().with_child(leaf(kind)))
            } else {
                stack.push(OpenModel { kind, children: Seq::empty() })
            }
        },
        HtmlTokenModel::EndTag { tag } => {
            let i = innermost_open(stack, tag);
            if i >= 1 {
                close_to(stack, i)
            } else {
                stack
            }
        },
        HtmlTokenModel::Char(c) => stack.drop_last().push(stack.last().with_char(c)),
        HtmlTokenModel::Eof => stack,
    }
}

/// The open nodes after the tokens up to the end of the input.
pub open spec fn build(stack: Seq<OpenModel>, tokens: Seq<HtmlTokenModel>) -> Seq<OpenModel>
    decreases tokens.len(),
{
    if tokens.len() == 0 || tokens[0] is Eof {
        stack
    } else {
        build(apply_token(stack, tokens[0]), tokens.drop_first())
    }
}

/// The open nodes before the first token: the document.
pub open spec fn initial_stack() -> Seq<OpenModel> {
    seq![OpenModel { kind: NodeKindModel::Document, children: Seq::empty() }]
}

/// The tree of a sequence of tokens. Elements that are still open at the end
/// are closed there.
pub open spec fn tree_of(tokens: Seq<HtmlTokenModel>) -> NodeModel {
    close_to(build(initial_stack(), tokens), 1)[0].closed()
}

/// The characters among the tokens up to the end of the input.
pub open spec fn token_chars(tokens: Seq<HtmlTokenModel>) -> Seq<char>
    decreases tokens.len(),
{
    if tokens.len() == 0 || tokens[0] is Eof {
        Seq::empty()
    } else {
        (match tokens[0] {
            HtmlTokenModel::Char(c) => seq![c],
            _ => Seq::empty(),
        }) + token_chars(tokens.drop_first())
    }
}

/// The text of a node and of what is below it.
pub open spec fn subtree_text(node: NodeModel) -> Seq<char> {
    own_text(node.kind) + chain_text(node.first_child)
}

/// The text of the given nodes, each with what is below it, in order.
pub open spec fn flat_text(children: Seq<NodeModel>) -> Seq<char>
    decreases children.len(),
{
    if children.len() == 0 {
        Seq::empty()
    } else {
        flat_text(children.drop_last()) + subtree_text(children.last())
    }
}

/// The text below the open nodes, from the outermost to the innermost.
pub open spec fn stack_text(stack: Seq<OpenModel>) -> Seq<char>
    decreases stack.len(),
{
    if stack.len() == 0 {
        Seq::empty()
    } else {
        stack_text(stack.drop_last()) + flat_text(stack.last().children)
    }
}

/// Whether a node is no document, has only content below it, and has
/// nothing below it if it is text.
pub open spec fn is_content_node(node: NodeModel) -> bool {
    !(node.kind is Document) && is_content(node.first_child) && (node.kind is Text
        ==> node.first_child is None)
}

/// Whether the open nodes are the document and, inside it, elements, with
/// content as their children.
pub open spec fn well_nested(stack: Seq<OpenModel>) -> bool {
    &&& stack.len() >= 1
    &&& stack[0].kind is Document
    &&& forall|i: int| 1 <= i < stack.len() ==> (#[trigger] stack[i]).kind is Element
    &&& forall|i: int, j: int|
        0 <= i < stack.len() && 0 <= j < stack[i].children.len() ==> is_content_node(
            #[trigger] stack[i].children[j],
        )
}

/// The text of a chain of nodes that is followed by another chain is the
/// text of the nodes and then that of the other chain.
pub proof fn lemma_link_text(children: Seq<NodeModel>, tail: Option<Box<NodeModel>>)
    ensures
        chain_text(link_onto(children, tail)) == flat_text(children) + chain_text(tail),
    decreases children.len(),
{
    if children.len() == 0 {
        assert(flat_text(children) + chain_text(tail) =~= chain_text(tail));
    } else {
        let last = children.last();
        let next = Some(Box::new(NodeModel { next_sibling: tail, ..last }));
        lemma_link_text(children.drop_last(), next);
        assert(chain_text(next) =~= subtree_text(last) + chain_text(tail));
        assert(flat_text(children.drop_last()) + (subtree_text(last) + chain_text(tail))
            =~= flat_text(children) + chain_text(tail));
    }
}

/// A chain of content nodes that is followed by content is content.
pub proof fn lemma_link_content(children: Seq<NodeModel>, tail: Option<Box<NodeModel>>)
    requires
        forall|j: int| 0 <= j < children.len() ==> is_content_node(#[trigger] children[j]),
        is_content(tail),
    ensures
        is_content(link_onto(children, tail)),
    decreases children.len(),
{
    if children.len() > 0 {
        let last = children.last();
        assert(is_content_node(last));
        let next = Some(Box::new(NodeModel { next_sibling: tail, ..last }));
        assert forall|j: int| 0 <= j < children.drop_last().len() implies is_content_node(
            #[trigger] children.drop_last()[j],
        ) by {
            assert(children.drop_last()[j] == children[j]);
        }
        lemma_link_content(children.drop_last(), next);
    }
}

/// Closing the innermost open node keeps the text and the nesting.
pub proof fn lemma_fold_top(stack: Seq<OpenModel>)
    requires
        stack.len() >= 2,
        well_nested(stack),
    ensures
        stack_text(fold_top(stack)) == stack_text(stack),
        well_nested(fold_top(stack)),
        fold_top(stack).len() == stack.len() - 1,
{
    let top = stack.last();
    let below = stack[stack.len() - 2];
    let rest = stack.drop_last().drop_last();
    let folded = fold_top(stack);
    lemma_link_text(top.children, None);
    assert(top.kind is Element) by {
        assert(stack[stack.len() - 1].kind is Element);
    }
    assert(subtree_text(top.closed()) =~= flat_text(top.children));
    assert(folded.drop_last() =~= rest);
    assert(stack.drop_last().drop_last() =~= rest);
    assert(stack.drop_last().last() == below);
    assert(below.with_child(top.closed()).children.drop_last() =~= below.children);
    assert(stack_text(folded) =~= stack_text(rest) + (flat_text(below.children) + flat_text(
        top.children,
    )));
    assert(stack_text(stack.drop_last()) =~= stack_text(rest) + flat_text(below.children));
    assert(stack_text(stack) =~= stack_text(rest) + flat_text(below.children) + flat_text(
        top.children,
    ));
    {
        assert forall|j: int| 0 <= j < top.children.len() implies is_content_node(
            #[trigger] top.children[j],
        ) by {
            assert(is_content_node(stack[stack.len() - 1].children[j]));
        }
        lemma_link_content(top.children, None);
        assert forall|i: int, j: int|
            0 <= i < folded.len() && 0 <= j < folded[i].children.len() implies is_content_node(
            #[trigger] folded[i].children[j],
        ) by {
            if i < folded.len() - 1 {
                assert(folded[i] == stack[i]);
                assert(is_content_node(stack[i].children[j]));
            } else if j < below.children.len() {
                assert(folded[i].children[j] == stack[stack.len() - 2].children[j]);
                assert(is_content_node(stack[stack.len() - 2].children[j]));
            }
        }
        assert forall|i: int| 1 <= i < folded.len() implies (#[trigger] folded[i]).kind
            is Element by {
            assert(folded[i].kind == stack[i].kind);
        }
    }
}

/// Closing open nodes keeps the text and the nesting.
pub proof fn lemma_close_to(stack: Seq<OpenModel>, k: int)
    requires
        1 <= k,
        well_nested(stack),
    ensures
        stack_text(close_to(stack, k)) == stack_text(stack),
        well_nested(close_to(stack, k)),
        close_to(stack, k).len() == if stack.len() > k {
            k
        } else {
            stack.len() as int
        },
    decreases stack.len(),
{
    if stack.len() > k && stack.len() >= 2 {
        lemma_fold_top(stack);
        lemma_close_to(fold_top(stack), k);
    }
}

/// The innermost open element with a name, if there is one, is not the
/// document and is among the open nodes.
pub proof fn lemma_innermost_open(stack: Seq<OpenModel>, tag: Seq<char>)
    ensures
        0 <= innermost_open(stack, tag),
        innermost_open(stack, tag) >= 1 ==> innermost_open(stack, tag) < stack.len(),
    decreases stack.len(),
{
    if stack.len() > 1 && !(stack.last().kind matches NodeKindModel::Element(e) && e.tag == tag) {
        lemma_innermost_open(stack.drop_last(), tag);
    }
}

/// A token adds its character, if it is one, to the text below the open
/// nodes, and keeps the nesting.
pub proof fn lemma_apply_token(stack: Seq<OpenModel>, token: HtmlTokenModel)
    requires
        well_nested(stack),
    ensures
        stack_text(apply_token(stack, token)) == stack_text(stack) + (match token {
            HtmlTokenModel::Char(c) => seq![c],
            _ => Seq::empty(),
        }),
        well_nested(apply_token(stack, token)),
{
    let after = apply_token(stack, token);
    let top = stack.last();
    match token {
        HtmlTokenModel::StartTag { tag, self_closing, attributes } => {
            let kind = NodeKindModel::Element(ElementModel { tag, attributes });
            if self_closing {
                let node = leaf(kind);
                assert(after.drop_last() =~= stack.drop_last());
                assert(top.with_child(node).children.drop_last() =~= top.children);
                assert(subtree_text(node) =~= Seq::<char>::empty());
                assert(flat_text(top.with_child(node).children) =~= flat_text(top.children));
                assert(stack_text(after) =~= stack_text(stack));
                assert(stack_text(stack) + Seq::<char>::empty() =~= stack_text(stack));
                lemma_replaced_top(stack, top.with_child(node));
            } else {
                assert(after.drop_last() =~= stack);
                assert(stack_text(after) =~= stack_text(stack) + flat_text(Seq::empty()));
                assert(stack_text(stack) + Seq::<char>::empty() =~= stack_text(stack));
                {
                    assert forall|i: int, j: int|
                        0 <= i < after.len() && 0 <= j < after[i].children.len()
                        implies is_content_node(#[trigger] after[i].children[j]) by {
                        if i < stack.len() {
                            assert(after[i] == stack[i]);
                            assert(is_content_node(stack[i].children[j]));
                        }
                    }
                    assert forall|i: int| 1 <= i < after.len() implies (#[trigger] after[i]).kind
                        is Element by {
                        if i < stack.len() {
                            assert(after[i] == stack[i]);
                        }
                    }
                }
            }
        },
        HtmlTokenModel::EndTag { tag } => {
            lemma_innermost_open(stack, tag);
            let i = innermost_open(stack, tag);
            if i >= 1 {
                lemma_close_to(stack, i);
            }
            assert(stack_text(stack) + Seq::<char>::empty() =~= stack_text(stack));
        },
        HtmlTokenModel::Char(c) => {
            assert(after.drop_last() =~= stack.drop_last());
            if top.children.len() > 0 && top.children.last().kind is Text {
                let last = top.children.last();
                let longer = NodeModel {
                    kind: NodeKindModel::Text(last.kind->Text_0.push(c)),
                    ..last
                };
                assert(is_content_node(last)) by {
                    assert(is_content_node(
                        stack[stack.len() - 1].children[top.children.len() - 1],
                    ));
                }
                assert(top.with_char(c).children.drop_last() =~= top.children.drop_last());
                assert(subtree_text(longer) =~= subtree_text(last) + seq![c]);
                assert(flat_text(top.with_char(c).children) =~= flat_text(top.children) + seq![c]);
            } else {
                let node = leaf(NodeKindModel::Text(seq![c]));
                assert(top.with_char(c).children.drop_last() =~= top.children);
                assert(subtree_text(node) =~= seq![c]);
                assert(flat_text(top.with_char(c).children) =~= flat_text(top.children) + seq![c]);
            }
            assert(stack_text(after) =~= stack_text(stack) + seq![c]);
            lemma_replaced_top(stack, top.with_char(c));
        },
        HtmlTokenModel::Eof => {
            assert(stack_text(stack) + Seq::<char>::empty() =~= stack_text(stack));
        },
    }
}

/// Putting another node with content as children in the place of the
/// innermost open node keeps the nesting.
proof fn lemma_replaced_top(stack: Seq<OpenModel>, top: OpenModel)
    requires
        well_nested(stack),
        top.kind == stack.last().kind,
        forall|j: int| 0 <= j < top.children.len() ==> is_content_node(#[trigger] top.children[j])
            || (j < stack.last().children.len() && top.children[j] == stack.last().children[j]),
    ensures
        well_nested(stack.drop_last().push(top)),
{
    let after = stack.drop_last().push(top);
    assert forall|i: int, j: int|
        0 <= i < after.len() && 0 <= j < after[i].children.len() implies is_content_node(
        #[trigger] after[i].children[j],
    ) by {
        if i < after.len() - 1 {
            assert(after[i] == stack[i]);
            assert(is_content_node(stack[i].children[j]));
        } else {
            if !is_content_node(top.children[j]) {
                assert(is_content_node(stack[stack.len() - 1].children[j]));
            }
        }
    }
    assert forall|i: int| 1 <= i < after.len() implies (#[trigger] after[i]).kind is Element by {
        assert(after[i].kind == stack[i].kind);
    }
}

/// The tokens up to the end of the input add their characters to the text
/// below the open nodes, and keep the nesting.
pub proof fn lemma_build(stack: Seq<OpenModel>, tokens: Seq<HtmlTokenModel>)
    requires
        well_nested(stack),
    ensures
        stack_text(build(stack, tokens)) == stack_text(stack) + token_chars(tokens),
        well_nested(build(stack, tokens)),
    decreases tokens.len(),
{
    if tokens.len() == 0 || tokens[0] is Eof {
        assert(stack_text(stack) + Seq::<char>::empty() =~= stack_text(stack));
    } else {
        lemma_apply_token(stack, tokens[0]);
        lemma_build(apply_token(stack, tokens[0]), tokens.drop_first());
        let own = match tokens[0] {
            HtmlTokenModel::Char(c) => seq![c],
            _ => Seq::empty(),
        };
        assert(stack_text(stack) + own + token_chars(tokens.drop_first()) =~= stack_text(stack) + (
        own + token_chars(tokens.drop_first())));
    }
}

/// The text of the tree of a sequence of tokens, read in document order, is
/// the characters among the tokens; and the tree is a document with content
/// below it.
pub proof fn lemma_text_round_trip(tokens: Seq<HtmlTokenModel>)
    ensures
        chain_text(Some(Box::new(tree_of(tokens)))) == token_chars(tokens),
        tree_of(tokens).is_document_root(),
{
    let start = initial_stack();
    assert(well_nested(start));
    assert(stack_text(start) =~= Seq::<char>::empty()) by {
        assert(start.drop_last() =~= Seq::<OpenModel>::empty());
        assert(stack_text(start) == stack_text(start.drop_last()) + flat_text(
            start.last().children,
        ));
    }
    lemma_build(start, tokens);
    let open = build(start, tokens);
    lemma_close_to(open, 1);
    let last = close_to(open, 1);
    let root = last[0];
    assert(last.drop_last() =~= Seq::<OpenModel>::empty());
    assert(stack_text(last) =~= flat_text(root.children)) by {
        assert(stack_text(last) == stack_text(last.drop_last()) + flat_text(last.last().children));
    }
    lemma_link_text(root.children, None);
    assert(chain_text(Some(Box::new(root.closed()))) =~= flat_text(root.children));
    assert(Seq::<char>::empty() + token_chars(tokens) =~= token_chars(tokens));
    assert forall|j: int| 0 <= j < root.children.len() implies is_content_node(
        #[trigger] root.children[j],
    ) by {
        assert(is_content_node(last[0].children[j]));
    }
    lemma_link_content(root.children, None);
}

/// A node that the builder has not closed yet.
struct OpenElement {
    kind: NodeKind,
    children: Vec<Node>,
}

impl View for OpenElement {
    type V = OpenModel;

    closed spec fn view(&self) -> OpenModel {
        OpenModel { kind: self.kind@, children: self.children@.map_values(|n: Node| n@) }
    }
}

spec fn stack_model(stack: Seq<OpenElement>) -> Seq<OpenModel> {
    stack.map_values(|o: OpenElement| o@)
}

impl OpenElement {
    fn new(kind: NodeKind) -> (r: Self)
        ensures
            r@ == (OpenModel { kind: kind@, children: Seq::empty() }),
    {
        let r = OpenElement { kind, children: Vec::new() };
        assert(r.children@.map_values(|n: Node| n@) =~= Seq::empty());
        r
    }

    /// Closes the node: links its children into a chain.
    fn close(self) -> (r: Node)
        ensures
            r@ == self@.closed(),
    {
        let OpenElement { kind, mut children } = self;
        let ghost all = children@.map_values(|n: Node| n@);
        let mut chain: Option<Box<Node>> = None;
        while children.len() > 0
            invariant
                link_onto(children@.map_values(|n: Node| n@), chain_model(chain)) == link(all),
            decreases children.len(),
        {
            let ghost before = children@.map_values(|n: Node| n@);
            match children.pop() {
                Some(mut child) => {
                    assert(children@.map_values(|n: Node| n@) =~= before.drop_last());
                    assert(child@ == before.last());
                    child.next_sibling = chain;
                    chain = Some(Box::new(child));
                },
                None => {},
            }
        }
        Node { kind, first_child: chain, next_sibling: None }
    }

    fn push_child(&mut self, child: Node)
        ensures
            final(self)@ == old(self)@.with_child(child@),
    {
        self.children.push(child);
        assert(self.children@.map_values(|n: Node| n@) =~= old(self).children@.map_values(
            |n: Node| n@,
        ).push(child@));
    }

    fn push_char(&mut self, c: char)
        ensures
            final(self)@ == old(self)@.with_char(c),
    {
        let ghost before = self.children@.map_values(|n: Node| n@);
        match self.children.pop() {
            Some(mut last) => {
                assert(self.children@.map_values(|n: Node| n@) =~= before.drop_last());
                assert(last@ == before.last());
                match last.kind {
                    NodeKind::Text(mut t) => {
                        t.push(c);
                        last.kind = NodeKind::Text(t);
                        self.children.push(last);
                        assert(self.children@.map_values(|n: Node| n@) =~= before.drop_last().push(
                            last@,
                        ));
                    },
                    kind => {
                        last.kind = kind;
                        self.children.push(last);
                        assert(self.children@.map_values(|n: Node| n@) =~= before);
                        let mut text = String::new();
                        text.push(c);
                        assert(text@ =~= seq![c]);
                        self.push_child(Node::new(NodeKind::Text(text)));
                    },
                }
            },
            None => {
                let mut text = String::new();
                text.push(c);
                assert(text@ =~= seq![c]);
                self.push_child(Node::new(NodeKind::Text(text)));
            },
        }
    }
}

/// The builder of the node tree of a document.
#[derive(Debug)]
pub struct HtmlParser {
    t: HtmlTokenizer,
}

impl View for HtmlParser {
    type V = HtmlTokenizerModel;

    closed spec fn view(&self) -> HtmlTokenizerModel {
        self.t@
    }
}

impl HtmlParser {
    pub fn new(t: HtmlTokenizer) -> (p: Self)
        ensures
            p@ == t@,
    {
        Self { t }
    }

    /// Builds the tree of the tokens that are left.
    ///
    /// The result is a document. Its text, read in document order, is the
    /// characters among the tokens, and each run of characters is in a single
    /// text node.
    pub fn construct_tree(&mut self) -> (window: Window)
        ensures
            window.document@ == tree_of(old(self)@.tokens()),
            window.document@.is_document_root(),
            chain_text(Some(Box::new(window.document@))) == token_chars(old(self)@.tokens()),
            texts_apart(Some(Box::new(window.document@))),
    {
        let mut stack: Vec<OpenElement> = Vec::new();
        stack.push(OpenElement::new(NodeKind::Document));
        assert(stack_model(stack@) =~= initial_stack());
        let ghost all = self.t@.tokens();
        loop
            invariant_except_break
                build(stack_model(stack@), self.t@.tokens()) == build(initial_stack(), all),
            invariant
                all == old(self)@.tokens(),
                stack.len() >= 1,
            ensures
                stack_model(stack@) == build(initial_stack(), all),
            decreases self.t@.measure(), self.t@.buf.len(),
        {
            proof {
                lemma_tokens_unfold(self.t@);
            }
            let ghost tokens = self.t@.tokens();
            match self.t.next() {
                None => {
                    break ;
                },
                Some(HtmlToken::Eof) => {
                    break ;
                },
                Some(token) => {
                    assert(tokens.drop_first() =~= self.t@.tokens());
                    Self::apply(&mut stack, token);
                },
            }
        }
        Self::close_all(&mut stack);
        let ghost closed = stack_model(stack@);
        proof {
            lemma_text_round_trip(all);
            lemma_texts_apart(all);
            assert(well_nested(initial_stack()));
            lemma_build(initial_stack(), all);
            lemma_close_to(build(initial_stack(), all), 1);
            assert(closed.len() == stack.len());
            assert(closed[0] == stack[0]@);
        }
        let root = match stack.pop() {
            Some(open) => open.close(),
            None => Node::new(NodeKind::Document),
        };
        Window { document: root }
    }

    /// Closes the innermost open node.
    fn fold_top(stack: &mut Vec<OpenElement>)
        requires
            old(stack).len() >= 2,
        ensures
            stack_model(final(stack)@) == fold_top(stack_model(old(stack)@)),
            final(stack).len() == old(stack).len() - 1,
    {
        let ghost before = stack_model(stack@);
        match stack.pop() {
            Some(top) => {
                let node = top.close();
                match stack.pop() {
                    Some(mut below) => {
                        below.push_child(node);
                        stack.push(below);
                        assert(stack_model(stack@) =~= fold_top(before));
                    },
                    None => {},
                }
            },
            None => {},
        }
    }

    /// Closes innermost open nodes until `k` nodes are open.
    fn close_to(stack: &mut Vec<OpenElement>, k: usize)
        requires
            old(stack).len() >= 1,
            k >= 1,
        ensures
            stack_model(final(stack)@) == close_to(stack_model(old(stack)@), k as int),
            final(stack).len() >= 1,
    {
        while stack.len() > k
            invariant
                k >= 1,
                stack.len() >= 1,
                close_to(stack_model(stack@), k as int) == close_to(
                    stack_model(old(stack)@),
                    k as int,
                ),
            decreases stack.len(),
        {
            Self::fold_top(stack);
        }
    }

    fn close_all(stack: &mut Vec<OpenElement>)
        requires
            old(stack).len() >= 1,
        ensures
            stack_model(final(stack)@) == close_to(stack_model(old(stack)@), 1),
            final(stack).len() >= 1,
    {
        Self::close_to(stack, 1);
    }

    /// The index of the innermost open element with the given tag name, or 0.
    fn find_open(stack: &Vec<OpenElement>, tag: &String) -> (i: usize)
        ensures
            i == innermost_open(stack_model(stack@), tag@),
            i < stack.len() || i == 0,
    {
        let mut i: usize = stack.len();
        assert(stack_model(stack@).take(stack.len() as int) =~= stack_model(stack@));
        while i > 1
            invariant
                i <= stack.len(),
                innermost_open(stack_model(stack@), tag@) == innermost_open(
                    stack_model(stack@).take(i as int),
                    tag@,
                ),
            decreases i,
        {
            let ghost part = stack_model(stack@).take(i as int);
            assert(part.last() == stack[i - 1]@);
            assert(part.drop_last() =~= stack_model(stack@).take(i - 1));
            let found = match &stack[i - 1].kind {
                NodeKind::Element(e) => e.tag == *tag,
                _ => false,
            };
            if found {
                return i - 1;
            }
            i -= 1;
        }
        0
    }

    /// Changes the open nodes as a token asks.
    fn apply(stack: &mut Vec<OpenElement>, token: HtmlToken)
        requires
            old(stack).len() >= 1,
        ensures
            stack_model(final(stack)@) == apply_token(stack_model(old(stack)@), token@),
            final(stack).len() >= 1,
    {
        let ghost before = stack_model(stack@);
        match token {
            HtmlToken::StartTag { tag, self_closing, attributes } => {
                let kind = NodeKind::Element(Element { tag, attributes });
                if self_closing {
                    match stack.pop() {
                        Some(mut top) => {
                            top.push_child(Node::new(kind));
                            stack.push(top);
                            assert(stack_model(stack@) =~= apply_token(before, token@));
                        },
                        None => {},
                    }
                } else {
                    stack.push(OpenElement::new(kind));
                    assert(stack_model(stack@) =~= apply_token(before, token@));
                }
            },
            HtmlToken::EndTag { tag } => {
                let i = Self::find_open(stack, &tag);
                if i >= 1 {
                    Self::close_to(stack, i);
                }
            },
            HtmlToken::Char(c) => {
                match stack.pop() {
                    Some(mut top) => {
                        top.push_char(c);
                        stack.push(top);
                        assert(stack_model(stack@) =~= apply_token(before, token@));
                    },
                    None => {},
                }
            },
            HtmlToken::Eof => {},
        }
    }
}

/// Whether no text node among the given nodes is followed by a text node.
pub open spec fn children_apart(children: Seq<NodeModel>) -> bool {
    forall|j: int|
        0 <= j < children.len() - 1 ==> !((#[trigger] children[j]).kind is Text && children[j
            + 1].kind is Text)
}

/// Whether the open nodes hold their text in single nodes: among the children
/// of each, no text node follows a text node, and the same holds below each
/// child.
pub open spec fn well_spaced(stack: Seq<OpenModel>) -> bool {
    &&& forall|i: int| 0 <= i < stack.len() ==> children_apart(#[trigger] stack[i].children)
    &&& forall|i: int, j: int|
        0 <= i < stack.len() && 0 <= j < stack[i].children.len() ==> texts_apart(
            (#[trigger] stack[i].children[j]).first_child,
        )
}

/// A chain of nodes among which no text node follows a text node, followed
/// by a chain of that kind that does not start with text where the nodes end
/// with text, is a chain of that kind.
pub proof fn lemma_link_apart(children: Seq<NodeModel>, tail: Option<Box<NodeModel>>)
    requires
        children_apart(children),
        forall|j: int|
            0 <= j < children.len() ==> texts_apart((#[trigger] children[j]).first_child),
        texts_apart(tail),
        children.len() > 0 && children.last().kind is Text ==> !starts_with_text(tail),
    ensures
        texts_apart(link_onto(children, tail)),
        children.len() > 0 ==> (starts_with_text(link_onto(children, tail))
            <==> children[0].kind is Text),
        children.len() == 0 ==> link_onto(children, tail) == tail,
    decreases children.len(),
{
    if children.len() > 0 {
        let last = children.last();
        let next = Some(Box::new(NodeModel { next_sibling: tail, ..last }));
        let rest = children.drop_last();
        assert(texts_apart(last.first_child));
        assert(texts_apart(next));
        assert forall|j: int| 0 <= j < rest.len() - 1 implies !((#[trigger] rest[j]).kind is Text
            && rest[j + 1].kind is Text) by {
            assert(rest[j] == children[j]);
            assert(rest[j + 1] == children[j + 1]);
        }
        assert forall|j: int| 0 <= j < rest.len() implies texts_apart(
            (#[trigger] rest[j]).first_child,
        ) by {
            assert(rest[j] == children[j]);
        }
        if rest.len() > 0 {
            assert(rest.last() == children[children.len() - 2]);
            assert(children[children.len() - 2 + 1] == last);
            assert(rest[0] == children[0]);
        }
        lemma_link_apart(rest, next);
    }
}

/// Closing the innermost open node keeps the text in single nodes.
pub proof fn lemma_fold_top_spaced(stack: Seq<OpenModel>)
    requires
        stack.len() >= 2,
        well_nested(stack),
        well_spaced(stack),
    ensures
        well_spaced(fold_top(stack)),
{
    let top = stack.last();
    let below = stack[stack.len() - 2];
    let folded = fold_top(stack);
    let closed = top.closed();
    assert(top.kind is Element) by {
        assert(stack[stack.len() - 1].kind is Element);
    }
    assert(children_apart(stack[stack.len() - 1].children));
    assert forall|j: int| 0 <= j < top.children.len() implies texts_apart(
        (#[trigger] top.children[j]).first_child,
    ) by {
        assert(texts_apart(stack[stack.len() - 1].children[j].first_child));
    }
    lemma_link_apart(top.children, None);
    let grown = below.with_child(closed);
    assert(children_apart(stack[stack.len() - 2].children));
    assert forall|j: int| 0 <= j < grown.children.len() - 1 implies !((
    #[trigger] grown.children[j]).kind is Text && grown.children[j + 1].kind is Text) by {
        if j + 1 < below.children.len() {
            assert(grown.children[j] == below.children[j]);
            assert(grown.children[j + 1] == below.children[j + 1]);
        }
    }
    assert forall|i: int| 0 <= i < folded.len() implies children_apart(
        #[trigger] folded[i].children,
    ) by {
        if i < folded.len() - 1 {
            assert(folded[i] == stack[i]);
            assert(children_apart(stack[i].children));
        }
    }
    assert forall|i: int, j: int|
        0 <= i < folded.len() && 0 <= j < folded[i].children.len() implies texts_apart(
        (#[trigger] folded[i].children[j]).first_child,
    ) by {
        if i < folded.len() - 1 {
            assert(folded[i] == stack[i]);
            assert(texts_apart(stack[i].children[j].first_child));
        } else if j < below.children.len() {
            assert(folded[i].children[j] == stack[stack.len() - 2].children[j]);
            assert(texts_apart(stack[stack.len() - 2].children[j].first_child));
        }
    }
}

/// Closing open nodes keeps the text in single nodes.
pub proof fn lemma_close_to_spaced(stack: Seq<OpenModel>, k: int)
    requires
        1 <= k,
        well_nested(stack),
        well_spaced(stack),
    ensures
        well_spaced(close_to(stack, k)),
    decreases stack.len(),
{
    if stack.len() > k && stack.len() >= 2 {
        lemma_fold_top(stack);
        lemma_fold_top_spaced(stack);
        lemma_close_to_spaced(fold_top(stack), k);
    }
}

/// Putting another node in the place of the innermost open node, with
/// children of which the same holds, keeps the text in single nodes.
proof fn lemma_replaced_top_spaced(stack: Seq<OpenModel>, top: OpenModel)
    requires
        stack.len() >= 1,
        well_spaced(stack),
        children_apart(top.children),
        forall|j: int|
            0 <= j < top.children.len() ==> texts_apart((#[trigger] top.children[j]).first_child),
    ensures
        well_spaced(stack.drop_last().push(top)),
{
    let after = stack.drop_last().push(top);
    assert forall|i: int| 0 <= i < after.len() implies children_apart(
        #[trigger] after[i].children,
    ) by {
        if i < after.len() - 1 {
            assert(after[i] == stack[i]);
            assert(children_apart(stack[i].children));
        }
    }
    assert forall|i: int, j: int|
        0 <= i < after.len() && 0 <= j < after[i].children.len() implies texts_apart(
        (#[trigger] after[i].children[j]).first_child,
    ) by {
        if i < after.len() - 1 {
            assert(after[i] == stack[i]);
            assert(texts_apart(stack[i].children[j].first_child));
        }
    }
}

/// A token keeps the text in single nodes: a character goes to the text
/// node at the end, and only where there is none, a new one is made.
pub proof fn lemma_apply_token_spaced(stack: Seq<OpenModel>, token: HtmlTokenModel)
    requires
        well_nested(stack),
        well_spaced(stack),
    ensures
        well_spaced(apply_token(stack, token)),
{
    let top = stack.last();
    assert(children_apart(stack[stack.len() - 1].children));
    assert forall|j: int| 0 <= j < top.children.len() implies texts_apart(
        (#[trigger] top.children[j]).first_child,
    ) by {
        assert(texts_apart(stack[stack.len() - 1].children[j].first_child));
    }
    match token {
        HtmlTokenModel::StartTag { tag, self_closing, attributes } => {
            let kind = NodeKindModel::Element(ElementModel { tag, attributes });
            if self_closing {
                let grown = top.with_child(leaf(kind));
                assert forall|j: int| 0 <= j < grown.children.len() - 1 implies !((
                #[trigger] grown.children[j]).kind is Text && grown.children[j + 1].kind
                    is Text) by {
                    if j + 1 < top.children.len() {
                        assert(grown.children[j] == top.children[j]);
                        assert(grown.children[j + 1] == top.children[j + 1]);
                    }
                }
                assert forall|j: int| 0 <= j < grown.children.len() implies texts_apart(
                    (#[trigger] grown.children[j]).first_child,
                ) by {
                    if j < top.children.len() {
                        assert(grown.children[j] == top.children[j]);
                    }
                }
                lemma_replaced_top_spaced(stack, grown);
            } else {
                let after = stack.push(OpenModel { kind, children: Seq::empty() });
                assert forall|i: int| 0 <= i < after.len() implies children_apart(
                    #[trigger] after[i].children,
                ) by {
                    if i < stack.len() {
                        assert(after[i] == stack[i]);
                        assert(children_apart(stack[i].children));
                    }
                }
                assert forall|i: int, j: int|
                    0 <= i < after.len() && 0 <= j < after[i].children.len() implies texts_apart(
                    (#[trigger] after[i].children[j]).first_child,
                ) by {
                    if i < stack.len() {
                        assert(after[i] == stack[i]);
                        assert(texts_apart(stack[i].children[j].first_child));
                    }
                }
            }
        },
        HtmlTokenModel::EndTag { tag } => {
            lemma_innermost_open(stack, tag);
            let i = innermost_open(stack, tag);
            if i >= 1 {
                lemma_close_to_spaced(stack, i);
            }
        },
        HtmlTokenModel::Char(c) => {
            let grown = top.with_char(c);
            if top.children.len() > 0 && top.children.last().kind is Text {
                assert forall|j: int| 0 <= j < grown.children.len() - 1 implies !((
                #[trigger] grown.children[j]).kind is Text && grown.children[j + 1].kind
                    is Text) by {
                    assert(grown.children[j] == top.children[j]);
                    assert(grown.children[j + 1].kind is Text ==> top.children[j + 1].kind is Text);
                }
                assert forall|j: int| 0 <= j < grown.children.len() implies texts_apart(
                    (#[trigger] grown.children[j]).first_child,
                ) by {
                    if j < top.children.len() - 1 {
                        assert(grown.children[j] == top.children[j]);
                    } else {
                        assert(grown.children[j].first_child == top.children[j].first_child);
                    }
                }
            } else {
                assert forall|j: int| 0 <= j < grown.children.len() - 1 implies !((
                #[trigger] grown.children[j]).kind is Text && grown.children[j + 1].kind
                    is Text) by {
                    assert(grown.children[j] == top.children[j]);
                    if j + 1 < top.children.len() {
                        assert(grown.children[j + 1] == top.children[j + 1]);
                    }
                }
                assert forall|j: int| 0 <= j < grown.children.len() implies texts_apart(
                    (#[trigger] grown.children[j]).first_child,
                ) by {
                    if j < top.children.len() {
                        assert(grown.children[j] == top.children[j]);
                    }
                }
            }
            lemma_replaced_top_spaced(stack, grown);
        },
        HtmlTokenModel::Eof => {},
    }
}

/// The tokens up to the end of the input keep the text in single nodes.
pub proof fn lemma_build_spaced(stack: Seq<OpenModel>, tokens: Seq<HtmlTokenModel>)
    requires
        well_nested(stack),
        well_spaced(stack),
    ensures
        well_spaced(build(stack, tokens)),
    decreases tokens.len(),
{
    if !(tokens.len() == 0 || tokens[0] is Eof) {
        lemma_apply_token(stack, tokens[0]);
        lemma_apply_token_spaced(stack, tokens[0]);
        lemma_build_spaced(apply_token(stack, tokens[0]), tokens.drop_first());
    }
}

/// The tree of a sequence of tokens holds each run of characters in a single
/// text node: no text node has a text node as its next sibling.
pub proof fn lemma_texts_apart(tokens: Seq<HtmlTokenModel>)
    ensures
        texts_apart(Some(Box::new(tree_of(tokens)))),
{
    let start = initial_stack();
    assert(well_nested(start));
    assert(well_spaced(start));
    lemma_build(start, tokens);
    lemma_build_spaced(start, tokens);
    let open = build(start, tokens);
    lemma_close_to(open, 1);
    lemma_close_to_spaced(open, 1);
    let last = close_to(open, 1);
    let root = last[0];
    assert(children_apart(last[0].children));
    assert forall|j: int| 0 <= j < root.children.len() implies texts_apart(
        (#[trigger] root.children[j]).first_child,
    ) by {
        assert(texts_apart(last[0].children[j].first_child));
    }
    lemma_link_apart(root.children, None);
}

/// The characters among tokens that are all characters are the characters.
pub proof fn lemma_chars_of_chars(s: Seq<char>)
    ensures
        token_chars(chars_as_tokens(s)) == s,
    decreases s.len(),
{
    let tokens = chars_as_tokens(s);
    if s.len() == 0 {
        assert(token_chars(tokens) =~= s);
    } else {
        lemma_chars_of_chars(s.drop_first());
        assert(tokens.drop_first() =~= chars_as_tokens(s.drop_first()));
        assert(seq![s[0]] + s.drop_first() =~= s);
    }
}

/// The document of a text without `<` has that text as its text.
pub proof fn lemma_plain_text_document(s: Seq<char>)
    requires
        is_plain(s, 0),
    ensures
        chain_text(Some(Box::new(tree_of(HtmlTokenizerModel::start(s).tokens())))) == s,
{
    lemma_plain_text(HtmlTokenizerModel::start(s));
    assert(s.subrange(0, s.len() as int) =~= s);
    lemma_chars_of_chars(s);
    lemma_text_round_trip(chars_as_tokens(s));
}

/// In the state for markup, the characters among the tokens of markup
/// without raw text are the characters outside its tags, and the end of the
/// input is not among the tokens.
pub proof fn lemma_markup_chars(m: HtmlTokenizerModel)
    requires
        m.state == State::Data,
        !m.reconsume,
        m.pos <= m.input.len(),
        is_markup(m.input, m.pos as int),
        no_raw_text(m.tokens()),
    ensures
        token_chars(m.tokens()) == outside_tags(m.input, m.pos as int),
        forall|k: int| 0 <= k < m.tokens().len() ==> !(#[trigger] m.tokens()[k] is Eof),
    decreases m.input.len() - m.pos,
{
    lemma_tokens_unfold(m);
    let s = m.input;
    let p = m.pos as int;
    if p < s.len() {
        let (after, token) = m.next();
        if s[p] == '<' {
            let end = tag_close(s, p);
            lemma_step(m);
            let opened = m.step().0;
            assert(m.step() == (
                HtmlTokenizerModel { state: State::TagOpen, pos: m.pos + 1, ..m },
                None::<HtmlTokenModel>,
            ));
            assert(m.run() == opened.run());
            lemma_step(opened);
            let named = if s[p + 1] == '/' {
                let closing = opened.step().0;
                assert(opened.step().1 is None);
                assert(closing.state == State::EndTagOpen && closing.pos == p + 2
                    && !closing.reconsume);
                assert(opened.run() == closing.run());
                lemma_step(closing);
                assert(closing.step().1 is None);
                assert(closing.run() == closing.step().0.run());
                closing.step().0
            } else {
                assert(opened.step().1 is None);
                assert(opened.run() == opened.step().0.run());
                opened.step().0
            };
            assert(named.state == State::TagName && named.reconsume && named.builds_tag());
            assert(named.input == s);
            assert(named.cursor() == name_start(s, p));
            lemma_tag_end(s, name_start(s, p), TagPart::Name);
            lemma_tag_run(named, end);
            assert(m.run() == named.run());
            let tag = token->0;
            assert(m.tokens()[0] == tag);
            assert(!starts_raw_text(tag));
            assert(after.state == State::Data);
            assert forall|k: int| 0 <= k < after.tokens().len() implies !starts_raw_text(
                #[trigger] after.tokens()[k],
            ) by {
                assert(m.tokens()[k + 1] == after.tokens()[k]);
            }
            lemma_markup_chars(after);
            assert(m.tokens().drop_first() =~= after.tokens());
            assert(token_chars(m.tokens()) =~= token_chars(after.tokens()));
            assert forall|k: int| 0 <= k < m.tokens().len() implies !(#[trigger] m.tokens()[k]
                is Eof) by {
                if k > 0 {
                    assert(m.tokens()[k] == after.tokens()[k - 1]);
                }
            }
        } else {
            let c = s[p];
            assert(m.step() == (
                HtmlTokenizerModel { pos: m.pos + 1, ..m },
                Some(HtmlTokenModel::Char(c)),
            ));
            assert(m.run() == m.step());
            assert forall|k: int| 0 <= k < after.tokens().len() implies !starts_raw_text(
                #[trigger] after.tokens()[k],
            ) by {
                assert(m.tokens()[k + 1] == after.tokens()[k]);
            }
            lemma_markup_chars(after);
            assert(m.tokens().drop_first() =~= after.tokens());
            assert(token_chars(m.tokens()) =~= seq![c] + token_chars(after.tokens()));
            assert forall|k: int| 0 <= k < m.tokens().len() implies !(#[trigger] m.tokens()[k]
                is Eof) by {
                if k > 0 {
                    assert(m.tokens()[k] == after.tokens()[k - 1]);
                }
            }
        }
    } else {
        assert(token_chars(m.tokens()) =~= Seq::<char>::empty());
    }
}

/// The document of markup without raw text has as its text, read in document
/// order, the characters of the markup that lie outside its tags, and holds
/// each run of them in a single text node.
pub proof fn lemma_markup_document(s: Seq<char>)
    requires
        is_markup(s, 0),
        no_raw_text(HtmlTokenizerModel::start(s).tokens()),
    ensures
        chain_text(Some(Box::new(tree_of(HtmlTokenizerModel::start(s).tokens()))))
            == outside_tags(s, 0),
        texts_apart(Some(Box::new(tree_of(HtmlTokenizerModel::start(s).tokens())))),
{
    let tokens = HtmlTokenizerModel::start(s).tokens();
    lemma_markup_chars(HtmlTokenizerModel::start(s));
    lemma_text_round_trip(tokens);
    lemma_texts_apart(tokens);
}

} // verus!
