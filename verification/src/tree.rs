use crate::text::byte_len;
use vstd::prelude::*;

verus! {

/// `rowan::GreenNodeBuilder`, known by what the names below say it holds.
#[verifier::external_type_specification]
#[verifier::external_body]
pub struct ExGreenNodeBuilder<'cache>(rowan::GreenNodeBuilder<'cache>);

/// `rowan::GreenNode`, known by the tree it stands for.
#[verifier::external_type_specification]
#[verifier::external_body]
pub struct ExGreenNode(rowan::GreenNode);

/// `rowan::Checkpoint`, known by the place it marks.
#[verifier::external_type_specification]
#[verifier::external_body]
pub struct ExCheckpoint(rowan::Checkpoint);

/// The shape of a syntax tree: an interior node owns its children in order, a
/// leaf carries the exact text it covers. Kinds are numeric tags.
pub enum Tree {
    Node { kind: u16, children: Seq<Tree> },
    Token { kind: u16, text: Seq<char> },
}

/// A node that was opened and not yet closed: its kind, and the index of its
/// first child among the pending elements.
pub struct OpenNode {
    pub kind: u16,
    pub first_child: nat,
}

/// The elements that a builder holds and has not yet put under a closed
/// node, oldest first.
pub uninterp spec fn builder_children(b: rowan::GreenNodeBuilder<'static>) -> Seq<Tree>;

/// The nodes of a builder that are open, outermost first.
pub uninterp spec fn builder_parents(b: rowan::GreenNodeBuilder<'static>) -> Seq<OpenNode>;

/// The number of pending elements that a builder held when a checkpoint was
/// taken.
pub uninterp spec fn checkpoint_index(c: rowan::Checkpoint) -> nat;

/// The tree that a finished node stands for.
pub uninterp spec fn green_tree(n: rowan::GreenNode) -> Tree;

/// The leaves of a tree, left to right.
pub open spec fn tree_leaves(tree: Tree) -> Seq<Tree>
    decreases tree,
{
    match tree {
        Tree::Node { children, .. } => forest_leaves(children),
        Tree::Token { .. } => seq![tree],
    }
}

/// The leaves of the trees of `items`, left to right.
pub open spec fn forest_leaves(items: Seq<Tree>) -> Seq<Tree>
    decreases items,
{
    if items.len() == 0 {
        Seq::empty()
    } else {
        forest_leaves(items.drop_last()) + tree_leaves(items.last())
    }
}

/// Number of bytes of text under a tree.
pub open spec fn tree_bytes(tree: Tree) -> nat
    decreases tree,
{
    match tree {
        Tree::Node { children, .. } => forest_bytes(children),
        Tree::Token { text, .. } => byte_len(text),
    }
}

/// Number of bytes of text under the trees of `items`.
pub open spec fn forest_bytes(items: Seq<Tree>) -> nat
    decreases items,
{
    if items.len() == 0 {
        0
    } else {
        forest_bytes(items.drop_last()) + tree_bytes(items.last())
    }
}

/// The bytes under two forests in a row add up.
pub proof fn lemma_forest_bytes_add(a: Seq<Tree>, b: Seq<Tree>)
    ensures
        forest_bytes(a + b) == forest_bytes(a) + forest_bytes(b),
    decreases b.len(),
{
    if b.len() == 0 {
        assert(a + b =~= a);
    } else {
        lemma_forest_bytes_add(a, b.drop_last());
        assert((a + b).drop_last() =~= a + b.drop_last());
        assert((a + b).last() == b.last());
    }
}

/// One tree more adds the bytes under it.
pub proof fn lemma_forest_bytes_push(items: Seq<Tree>, tree: Tree)
    ensures
        forest_bytes(items.push(tree)) == forest_bytes(items) + tree_bytes(tree),
{
    assert(items.push(tree).drop_last() =~= items);
    assert(items.push(tree).last() == tree);
}

/// The texts of the leaves among `trees`, one after the other.
pub open spec fn leaves_text(trees: Seq<Tree>) -> Seq<char>
    decreases trees.len(),
{
    if trees.len() == 0 {
        Seq::empty()
    } else {
        leaves_text(trees.drop_last()) + (match trees.last() {
            Tree::Token { text, .. } => text,
            Tree::Node { .. } => Seq::empty(),
        })
    }
}

/// No interior node of `tree` has the kind `kind`.
pub open spec fn tree_free_of(tree: Tree, kind: u16) -> bool
    decreases tree,
{
    match tree {
        Tree::Node { kind: k, children } => k != kind && forest_free_of(children, kind),
        Tree::Token { .. } => true,
    }
}

/// No interior node of the trees of `items` has the kind `kind`.
pub open spec fn forest_free_of(items: Seq<Tree>, kind: u16) -> bool
    decreases items,
{
    if items.len() == 0 {
        true
    } else {
        forest_free_of(items.drop_last(), kind) && tree_free_of(items.last(), kind)
    }
}

/// The leaves of two forests in a row are the leaves of the one, then those
/// of the other.
pub proof fn lemma_forest_leaves_add(a: Seq<Tree>, b: Seq<Tree>)
    ensures
        forest_leaves(a + b) == forest_leaves(a) + forest_leaves(b),
    decreases b.len(),
{
    if b.len() == 0 {
        assert(a + b =~= a);
        assert(forest_leaves(a) + forest_leaves(b) =~= forest_leaves(a));
    } else {
        lemma_forest_leaves_add(a, b.drop_last());
        assert((a + b).drop_last() =~= a + b.drop_last());
        assert((a + b).last() == b.last());
        assert(forest_leaves(a + b) =~= forest_leaves(a) + forest_leaves(b));
    }
}

/// Two forests in a row are free of a kind where each of them is.
pub proof fn lemma_forest_free_add(a: Seq<Tree>, b: Seq<Tree>, kind: u16)
    ensures
        forest_free_of(a + b, kind) == (forest_free_of(a, kind) && forest_free_of(b, kind)),
    decreases b.len(),
{
    if b.len() == 0 {
        assert(a + b =~= a);
    } else {
        lemma_forest_free_add(a, b.drop_last(), kind);
        assert((a + b).drop_last() =~= a + b.drop_last());
        assert((a + b).last() == b.last());
    }
}

/// A forest of one tree has the leaves of that tree.
pub proof fn lemma_forest_of_one(tree: Tree, kind: u16)
    ensures
        forest_leaves(seq![tree]) == tree_leaves(tree),
        forest_free_of(seq![tree], kind) == tree_free_of(tree, kind),
{
    let one = seq![tree];
    assert(one.drop_last() =~= Seq::<Tree>::empty());
    assert(one.last() == tree);
    assert(forest_leaves(one.drop_last()) + tree_leaves(tree) =~= tree_leaves(tree));
    assert(forest_free_of(one.drop_last(), kind));
}

/// Each open node starts at or behind the one that encloses it, and none
/// starts behind the pending elements.
pub open spec fn parents_ordered(parents: Seq<OpenNode>, pending: nat) -> bool {
    &&& forall|i: int, j: int|
        0 <= i <= j < parents.len() ==> (#[trigger] parents[i]).first_child <= (
        #[trigger] parents[j]).first_child
    &&& forall|i: int| 0 <= i < parents.len() ==> (#[trigger] parents[i]).first_child <= pending
}

/// `rowan::GreenNodeBuilder::new`: a builder with no pending element and no
/// open node.
#[verifier::external_body]
pub(crate) fn builder_new() -> (b: rowan::GreenNodeBuilder<'static>)
    ensures
        builder_children(b) == Seq::<Tree>::empty(),
        builder_parents(b) == Seq::<OpenNode>::empty(),
{
    rowan::GreenNodeBuilder::new()
}

/// `rowan::GreenNodeBuilder::token`: appends a leaf with the given kind and
/// text to the pending elements; the open nodes stay.
#[verifier::external_body]
pub(crate) fn builder_token(b: &mut rowan::GreenNodeBuilder<'static>, kind: u16, text: &str)
    ensures
        builder_children(*final(b)) == builder_children(*old(b)).push(
            Tree::Token { kind, text: text@ },
        ),
        builder_parents(*final(b)) == builder_parents(*old(b)),
{
    b.token(rowan::SyntaxKind(kind), text)
}

/// `rowan::GreenNodeBuilder::start_node`: opens a node whose first child will
/// be the next pending element.
#[verifier::external_body]
pub(crate) fn builder_start_node(b: &mut rowan::GreenNodeBuilder<'static>, kind: u16)
    ensures
        builder_children(*final(b)) == builder_children(*old(b)),
        builder_parents(*final(b)) == builder_parents(*old(b)).push(
            OpenNode { kind, first_child: builder_children(*old(b)).len() },
        ),
{
    b.start_node(rowan::SyntaxKind(kind))
}

/// `rowan::GreenNodeBuilder::finish_node`: closes the innermost open node.
/// The pending elements from its first child on become its children, and
/// the node takes their place. It panics where no node is open, and it adds
/// up the text lengths of the children in 32 bits.
#[verifier::external_body]
pub(crate) fn builder_finish_node(b: &mut rowan::GreenNodeBuilder<'static>)
    requires
        builder_parents(*old(b)).len() > 0,
        builder_parents(*old(b)).last().first_child <= builder_children(*old(b)).len(),
        forest_bytes(
            builder_children(*old(b)).skip(builder_parents(*old(b)).last().first_child as int),
        ) <= u32::MAX,
    ensures
        builder_parents(*final(b)) == builder_parents(*old(b)).drop_last(),
        builder_children(*final(b)) == builder_children(*old(b)).take(
            builder_parents(*old(b)).last().first_child as int,
        ).push(
            Tree::Node {
                kind: builder_parents(*old(b)).last().kind,
                children: builder_children(*old(b)).skip(
                    builder_parents(*old(b)).last().first_child as int,
                ),
            },
        ),
{
    b.finish_node()
}

/// `rowan::GreenNodeBuilder::checkpoint`: marks the current number of
/// pending elements.
#[verifier::external_body]
pub(crate) fn builder_checkpoint(b: &rowan::GreenNodeBuilder<'static>) -> (c: rowan::Checkpoint)
    ensures
        checkpoint_index(c) == builder_children(*b).len(),
{
    b.checkpoint()
}

/// `rowan::GreenNodeBuilder::start_node_at`: opens a node whose first child
/// is the pending element at the checkpoint. It panics where the checkpoint
/// lies behind the pending elements or before the innermost open node.
#[verifier::external_body]
pub(crate) fn builder_start_node_at(
    b: &mut rowan::GreenNodeBuilder<'static>,
    checkpoint: rowan::Checkpoint,
    kind: u16,
)
    requires
        checkpoint_index(checkpoint) <= builder_children(*old(b)).len(),
        builder_parents(*old(b)).len() > 0 ==> builder_parents(*old(b)).last().first_child
            <= checkpoint_index(checkpoint),
    ensures
        builder_children(*final(b)) == builder_children(*old(b)),
        builder_parents(*final(b)) == builder_parents(*old(b)).push(
            OpenNode { kind, first_child: checkpoint_index(checkpoint) },
        ),
{
    b.start_node_at(checkpoint, rowan::SyntaxKind(kind))
}

/// `rowan::GreenNodeBuilder::finish`: hands out the one pending element. It
/// panics unless exactly one element is pending and that element is a node.
#[verifier::external_body]
pub(crate) fn builder_finish(b: rowan::GreenNodeBuilder<'static>) -> (n: rowan::GreenNode)
    requires
        builder_children(b).len() == 1,
        builder_children(b)[0] is Node,
    ensures
        green_tree(n) == builder_children(b)[0],
{
    b.finish()
}

} // verus!
