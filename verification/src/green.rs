//! The green tree of `rowan` and its builder, as the parser uses them.
//!
//! A builder holds a stack of open nodes (each with its kind and the index of
//! its first child) and a list of finished children (each a token with its
//! kind and text, or a node with its kind and its own children). The
//! contracts below state how each builder operation changes these two lists.

use vstd::prelude::*;

verus! {

#[verifier::external_type_specification]
#[verifier::external_body]
pub struct ExGreenNodeBuilder<'a>(rowan::GreenNodeBuilder<'a>);

#[verifier::external_type_specification]
#[verifier::external_body]
pub struct ExCheckpoint(rowan::Checkpoint);

#[verifier::external_type_specification]
#[verifier::external_body]
pub struct ExGreenNode(rowan::GreenNode);

/// The open nodes of a builder, outermost first: each node's kind and the
/// index of its first child in the children list.
pub uninterp spec fn builder_parents(b: rowan::GreenNodeBuilder<'static>) -> Seq<(u16, nat)>;

/// An element of a green tree: a node with its kind and its children, or a
/// token with its kind and its text.
pub enum GreenElement {
    Node(u16, Seq<GreenElement>),
    Token(u16, Seq<char>),
}

/// The finished children of a builder, in order.
pub uninterp spec fn builder_children(b: rowan::GreenNodeBuilder<'static>) -> Seq<GreenElement>;

/// The index in the children list that a checkpoint marks.
pub uninterp spec fn checkpoint_index(c: rowan::Checkpoint) -> nat;

/// A finished green tree: its root node, with the whole tree below it.
pub uninterp spec fn finished_tree(g: rowan::GreenNode) -> GreenElement;

/// The most characters a tree may hold: at four bytes a character at most,
/// its text then fits the `u32` byte length that `rowan` gives a node.
pub const MAX_TEXT_CHARS: usize = 1073741823usize;

/// The text of an element: a token's own text, or the texts of a node's children.
pub open spec fn elem_text(e: GreenElement) -> Seq<char>
    decreases e,
{
    match e {
        GreenElement::Token(_, t) => t,
        GreenElement::Node(_, cs) => children_text(cs),
    }
}

/// The texts of a list of elements, one after another.
pub open spec fn children_text(cs: Seq<GreenElement>) -> Seq<char>
    decreases cs,
{
    if cs.len() == 0 {
        Seq::empty()
    } else {
        children_text(cs.subrange(0, cs.len() - 1)) + elem_text(cs[cs.len() - 1])
    }
}

/// `GreenNodeBuilder::new`: a builder with no open node and no child.
#[verifier::external_body]
pub(crate) fn builder_new() -> (b: rowan::GreenNodeBuilder<'static>)
    ensures
        builder_parents(b) == Seq::<(u16, nat)>::empty(),
        builder_children(b) == Seq::<GreenElement>::empty(),
{
    rowan::GreenNodeBuilder::new()
}

/// `GreenNodeBuilder::token`: appends a token of the given kind and text to the children.
#[verifier::external_body]
pub(crate) fn builder_token(b: &mut rowan::GreenNodeBuilder<'static>, kind: u16, text: &str)
    ensures
        builder_parents(*final(b)) == builder_parents(*old(b)),
        builder_children(*final(b)) == builder_children(*old(b)).push(GreenElement::Token(kind, text@)),
{
    b.token(rowan::SyntaxKind(kind), text);
}

/// `GreenNodeBuilder::start_node`: opens a node whose first child is the next one.
#[verifier::external_body]
pub(crate) fn builder_start_node(b: &mut rowan::GreenNodeBuilder<'static>, kind: u16)
    ensures
        builder_parents(*final(b)) == builder_parents(*old(b)).push(
            (kind, builder_children(*old(b)).len()),
        ),
        builder_children(*final(b)) == builder_children(*old(b)),
{
    b.start_node(rowan::SyntaxKind(kind));
}

/// `GreenNodeBuilder::finish_node`: closes the innermost open node, replacing
/// its children by one node that holds them.
#[verifier::external_body]
pub(crate) fn builder_finish_node(b: &mut rowan::GreenNodeBuilder<'static>)
    requires
        builder_parents(*old(b)).len() > 0,
        children_text(builder_children(*old(b))).len() <= MAX_TEXT_CHARS,
        builder_parents(*old(b)).last().1 <= builder_children(*old(b)).len(),
    ensures
        ({
            let (kind, first) = builder_parents(*old(b)).last();
            let cs = builder_children(*old(b));
            &&& builder_parents(*final(b)) == builder_parents(*old(b)).drop_last()
            &&& builder_children(*final(b)) == cs.take(first as int).push(
                GreenElement::Node(kind, cs.skip(first as int)),
            )
        }),
{
    b.finish_node();
}

/// `GreenNodeBuilder::checkpoint`: marks the current end of the children list.
#[verifier::external_body]
pub(crate) fn builder_checkpoint(b: &rowan::GreenNodeBuilder<'static>) -> (c: rowan::Checkpoint)
    ensures
        checkpoint_index(c) == builder_children(*b).len(),
{
    b.checkpoint()
}

/// `GreenNodeBuilder::start_node_at`: opens a node whose first child is the
/// one that the checkpoint marks.
#[verifier::external_body]
pub(crate) fn builder_start_node_at(
    b: &mut rowan::GreenNodeBuilder<'static>,
    c: rowan::Checkpoint,
    kind: u16,
)
    requires
        checkpoint_index(c) <= builder_children(*old(b)).len(),
        builder_parents(*old(b)).len() > 0 ==> builder_parents(*old(b)).last().1 <= checkpoint_index(
            c,
        ),
    ensures
        builder_parents(*final(b)) == builder_parents(*old(b)).push((kind, checkpoint_index(c))),
        builder_children(*final(b)) == builder_children(*old(b)),
{
    b.start_node_at(c, rowan::SyntaxKind(kind));
}

/// `GreenNodeBuilder::finish`: the tree of the one finished node.
#[verifier::external_body]
pub(crate) fn builder_finish(b: rowan::GreenNodeBuilder<'static>) -> (g: rowan::GreenNode)
    requires
        builder_parents(b).len() == 0,
        builder_children(b).len() == 1,
        builder_children(b)[0] is Node,
    ensures
        finished_tree(g) == builder_children(b)[0],
{
    b.finish()
}

/// Closing a node keeps the text of all children.
pub proof fn lemma_children_text_split(cs: Seq<GreenElement>, f: int)
    requires
        0 <= f <= cs.len(),
    ensures
        children_text(cs) == children_text(cs.take(f)) + children_text(cs.skip(f)),
    decreases cs.len(),
{
    if f < cs.len() {
        lemma_children_text_split(cs.drop_last(), f);
        assert(cs.drop_last().take(f) =~= cs.take(f));
        assert(cs.skip(f).drop_last() =~= cs.drop_last().skip(f));
        assert(cs.skip(f).subrange(0, cs.skip(f).len() - 1) =~= cs.skip(f).drop_last());
        assert(cs.subrange(0, cs.len() - 1) =~= cs.drop_last());
        assert(cs.skip(f).last() == cs.last());
    } else {
        assert(cs.take(f) =~= cs);
        assert(children_text(cs.skip(f)) =~= Seq::<char>::empty());
    }
}

/// Calls `Clone::clone` of `rowan::GreenNode`: the copy shares the same tree.
#[verifier::external_body]
pub(crate) fn green_clone(g: &rowan::GreenNode) -> (r: rowan::GreenNode)
    ensures
        finished_tree(r) == finished_tree(*g),
{
    g.clone()
}

} // verus!
