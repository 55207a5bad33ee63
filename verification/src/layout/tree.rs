//! The layout solver's tree of nodes.
//!
//! The tree is `taffy::TaffyTree`. Nodes are named by numbers. What the functions here say of the
//! tree is said over `tree_nodes`; the styles of nodes and the layouts that the solver finds are
//! not spoken of.

use crate::geometry::{AvailableSpace, Real32, Size};
use vstd::prelude::*;

verus! {

/// What a measured leaf was last measured with, in device pixels.
#[derive(Clone, Copy, Debug)]
pub struct MeasureArgs {
    pub known_dimensions: Size<Option<Real32>>,
    pub available_space: Size<AvailableSpace>,
}

/// What the tree keeps for a leaf that measures itself.
#[derive(Clone, Copy, Debug)]
pub struct NodeContext {
    /// Names the function that measures the leaf.
    pub measure: u64,
    /// Stands for everything that the leaf's measure depends on besides the available space. A leaf
    /// without one is not kept.
    pub content_key: Option<u64>,
    /// What the leaf was last measured with. It is measured so again when it is kept for another
    /// frame without the solver asking for it.
    pub last_args: Option<MeasureArgs>,
}

impl NodeContext {
    /// Takes note of what the leaf is measured with, and says which function measures it.
    pub fn record_measure(&mut self, args: MeasureArgs) -> (r: u64)
        ensures
            r == old(self).measure,
            *final(self) == (NodeContext { last_args: Some(args), ..*old(self) }),
    {
        self.last_args = Some(args);
        self.measure
    }
}

#[verifier::external_type_specification]
#[verifier::external_body]
#[verifier::reject_recursive_types(C)]
pub struct ExTaffyTree<C>(taffy::TaffyTree<C>);

/// A node, as the tree holds it.
pub struct TreeNode {
    pub children: Seq<u64>,
    pub parent: Option<u64>,
    pub context: Option<NodeContext>,
}

/// The nodes of a tree, by their numbers.
pub uninterp spec fn tree_nodes(tree: taffy::TaffyTree<NodeContext>) -> Map<u64, TreeNode>;

/// Every parent that a node names is in the tree.
pub open spec fn parents_present(nodes: Map<u64, TreeNode>) -> bool {
    forall|node: u64| #[trigger]
        nodes.contains_key(node) ==> (nodes[node].parent matches Some(parent)
            ==> nodes.contains_key(parent))
}

pub open spec fn new_node(children: Seq<u64>, context: Option<NodeContext>) -> TreeNode {
    TreeNode { children, parent: None, context }
}

/// The nodes after a parent was made for some of them.
pub open spec fn adopted(
    nodes: Map<u64, TreeNode>,
    id: u64,
    children: Seq<u64>,
) -> Map<u64, TreeNode> {
    nodes.map_entries(
        |node: u64, data: TreeNode|
            TreeNode {
                parent: if children.contains(node) {
                    Some(id)
                } else {
                    data.parent
                },
                ..data
            },
    ).insert(id, new_node(children, None))
}

/// A list of nodes with every occurrence of one of them left out.
pub open spec fn without(list: Seq<u64>, id: u64) -> Seq<u64> {
    list.filter(|child: u64| child != id)
}

/// The nodes after one of them was removed: it is no longer anyone's child or parent.
pub open spec fn removed(nodes: Map<u64, TreeNode>, id: u64) -> Map<u64, TreeNode> {
    nodes.remove(id).map_entries(
        |node: u64, data: TreeNode|
            TreeNode {
                children: if nodes[id].parent == Some(node) {
                    without(data.children, id)
                } else {
                    data.children
                },
                parent: if nodes[id].children.contains(node) {
                    None
                } else {
                    data.parent
                },
                ..data
            },
    )
}

/// The nodes after a child was taken from its parent. `index` is its place among the children.
pub open spec fn detached(
    nodes: Map<u64, TreeNode>,
    parent: u64,
    index: int,
) -> Map<u64, TreeNode> {
    let child = nodes[parent].children[index];
    let shorter = nodes.insert(
        parent,
        TreeNode { children: nodes[parent].children.remove(index), ..nodes[parent] },
    );
    shorter.insert(child, TreeNode { parent: None, ..shorter[child] })
}

/// `taffy::TaffyTree::new`: a tree without nodes.
#[verifier::external_body]
pub(crate) fn tree_new() -> (r: taffy::TaffyTree<NodeContext>)
    ensures
        tree_nodes(r).dom().is_empty(),
{
    taffy::TaffyTree::new()
}

/// `taffy::TaffyTree::disable_rounding`: a setting of the solver, no change to the nodes.
#[verifier::external_body]
pub(crate) fn tree_disable_rounding(tree: &mut taffy::TaffyTree<NodeContext>)
    ensures
        tree_nodes(*final(tree)) == tree_nodes(*old(tree)),
{
    tree.disable_rounding();
}

/// `taffy::TaffyTree::new_leaf`: one more node, without parent, children or context, under a
/// number that no node of the tree has. It gets the default style.
#[verifier::external_body]
pub(crate) fn tree_new_leaf(tree: &mut taffy::TaffyTree<NodeContext>) -> (r: u64)
    ensures
        !tree_nodes(*old(tree)).contains_key(r),
        tree_nodes(*final(tree)) == tree_nodes(*old(tree)).insert(r, new_node(Seq::empty(), None)),
{
    u64::from(tree.new_leaf(Default::default()).unwrap())
}

/// `taffy::TaffyTree::new_leaf_with_context`: one more leaf, with the given context.
#[verifier::external_body]
pub(crate) fn tree_new_leaf_with_context(
    tree: &mut taffy::TaffyTree<NodeContext>,
    context: NodeContext,
) -> (r: u64)
    ensures
        !tree_nodes(*old(tree)).contains_key(r),
        tree_nodes(*final(tree)) == tree_nodes(*old(tree)).insert(
            r,
            new_node(Seq::empty(), Some(context)),
        ),
{
    u64::from(tree.new_leaf_with_context(Default::default(), context).unwrap())
}

/// `taffy::TaffyTree::new_with_children`: one more node, which becomes the parent of the given
/// ones. Their former parents keep them in their lists. The children have to be in the tree.
#[verifier::external_body]
pub(crate) fn tree_new_with_children(
    tree: &mut taffy::TaffyTree<NodeContext>,
    children: &Vec<u64>,
) -> (r: u64)
    requires
        forall|i: int|
            0 <= i < children@.len() ==> tree_nodes(*old(tree)).contains_key(
                #[trigger] children@[i],
            ),
    ensures
        !tree_nodes(*old(tree)).contains_key(r),
        tree_nodes(*final(tree)) == adopted(tree_nodes(*old(tree)), r, children@),
{
    let ids: Vec<taffy::NodeId> = children.iter().map(|id| taffy::NodeId::from(*id)).collect();
    u64::from(tree.new_with_children(Default::default(), &ids).unwrap())
}

/// `taffy::TaffyTree::remove_child_at_index`: takes a child from its parent; both stay in the tree.
/// The parent and its ancestors, which have to be in the tree, are marked to be laid out anew.
#[verifier::external_body]
pub(crate) fn tree_remove_child_at_index(
    tree: &mut taffy::TaffyTree<NodeContext>,
    parent: u64,
    index: usize,
)
    requires
        tree_nodes(*old(tree)).contains_key(parent),
        index < tree_nodes(*old(tree))[parent].children.len(),
        tree_nodes(*old(tree)).contains_key(tree_nodes(*old(tree))[parent].children[index as int]),
        parents_present(tree_nodes(*old(tree))),
    ensures
        tree_nodes(*final(tree)) == detached(tree_nodes(*old(tree)), parent, index as int),
{
    tree.remove_child_at_index(taffy::NodeId::from(parent), index).unwrap();
}

/// `taffy::TaffyTree::remove`: removes a node. It leaves the list of its parent, and its children,
/// which have to be in the tree, are left without a parent.
#[verifier::external_body]
pub(crate) fn tree_remove(tree: &mut taffy::TaffyTree<NodeContext>, node: u64)
    requires
        tree_nodes(*old(tree)).contains_key(node),
        forall|i: int|
            0 <= i < tree_nodes(*old(tree))[node].children.len() ==> tree_nodes(
                *old(tree),
            ).contains_key(#[trigger] tree_nodes(*old(tree))[node].children[i]),
    ensures
        tree_nodes(*final(tree)) == removed(tree_nodes(*old(tree)), node),
{
    tree.remove(taffy::NodeId::from(node)).unwrap();
}

/// `taffy::TaffyTree::clear`: removes all nodes.
#[verifier::external_body]
pub(crate) fn tree_clear(tree: &mut taffy::TaffyTree<NodeContext>)
    ensures
        tree_nodes(*final(tree)).dom().is_empty(),
{
    tree.clear();
}

/// `taffy::TaffyTree::children`: the children of a node of the tree, in order.
#[verifier::external_body]
pub(crate) fn tree_children(tree: &taffy::TaffyTree<NodeContext>, node: u64) -> (r: Vec<u64>)
    requires
        tree_nodes(*tree).contains_key(node),
    ensures
        r@ == tree_nodes(*tree)[node].children,
{
    let ids = tree.children(taffy::NodeId::from(node)).unwrap();
    ids.into_iter().map(u64::from).collect()
}

/// `taffy::TaffyTree::parent`: the parent of a node of the tree.
#[verifier::external_body]
pub(crate) fn tree_parent(tree: &taffy::TaffyTree<NodeContext>, node: u64) -> (r: Option<u64>)
    requires
        tree_nodes(*tree).contains_key(node),
    ensures
        r == tree_nodes(*tree)[node].parent,
{
    tree.parent(taffy::NodeId::from(node)).map(u64::from)
}

/// `taffy::TaffyTree::total_node_count`: how many nodes there are.
#[verifier::external_body]
pub(crate) fn tree_total_node_count(tree: &taffy::TaffyTree<NodeContext>) -> (r: usize)
    ensures
        r == tree_nodes(*tree).dom().len(),
{
    tree.total_node_count()
}

/// `taffy::TaffyTree::get_node_context`: the context of a node of the tree, if it has one.
#[verifier::external_body]
pub(crate) fn tree_context(tree: &taffy::TaffyTree<NodeContext>, node: u64) -> (r: Option<
    NodeContext,
>)
    requires
        tree_nodes(*tree).contains_key(node),
    ensures
        r == tree_nodes(*tree)[node].context,
{
    tree.get_node_context(taffy::NodeId::from(node)).copied()
}

/// `taffy::TaffyTree::get_node_context_mut`: changes the context that a node of the tree has. What
/// the solver found for the node stays valid.
#[verifier::external_body]
pub(crate) fn tree_replace_context(
    tree: &mut taffy::TaffyTree<NodeContext>,
    node: u64,
    context: NodeContext,
)
    requires
        tree_nodes(*old(tree)).contains_key(node),
        tree_nodes(*old(tree))[node].context is Some,
    ensures
        tree_nodes(*final(tree)) == tree_nodes(*old(tree)).insert(
            node,
            TreeNode { context: Some(context), ..tree_nodes(*old(tree))[node] },
        ),
{
    *tree.get_node_context_mut(taffy::NodeId::from(node)).unwrap() = context;
}

} // verus!
