//! Requests for nodes.
//!
//! A node that is asked for is kept from the frame before where one matches, and made where none
//! does.

use crate::geometry::Real32;
use crate::layout::engine::{swap_removed, LayoutId, TaffyLayoutEngine};
use crate::layout::forest::{
    above, forest, lemma_adopted, lemma_detached, lemma_new_leaf, lemma_parents_present,
    lemma_replaced_context, placed,
};
use crate::layout::key::{key_of, structural_key};
use crate::layout::stats::{count_up, sum};
use crate::layout::tree::{
    adopted, detached, new_node, tree_children, tree_context, tree_new_leaf,
    tree_new_leaf_with_context, tree_new_with_children, tree_parent, tree_remove_child_at_index,
    tree_replace_context, NodeContext, TreeNode,
};
use crate::style::{AbsoluteLength, Style, TaffyStyle};
use vstd::prelude::*;

verus! {

/// The nodes after a node was taken from its parent, if it has one.
pub open spec fn orphaned(nodes: Map<u64, TreeNode>, child: u64) -> Map<u64, TreeNode> {
    match nodes[child].parent {
        Some(parent) => detached(nodes, parent, nodes[parent].children.index_of(child)),
        None => nodes,
    }
}

/// The nodes after all of some nodes were taken from their parents.
pub open spec fn all_orphaned(nodes: Map<u64, TreeNode>, children: Seq<u64>) -> Map<u64, TreeNode>
    decreases children.len(),
{
    if children.len() == 0 {
        nodes
    } else {
        orphaned(all_orphaned(nodes, children.drop_last()), children.last())
    }
}

proof fn lemma_index_of(list: Seq<u64>, item: u64, index: int)
    requires
        list.no_duplicates(),
        0 <= index < list.len(),
        list[index] == item,
    ensures
        list.index_of(item) == index,
{
    assert(list[list.index_of(item)] == item);
}

fn find_item(list: &Vec<u64>, item: u64) -> (r: usize)
    requires
        list@.contains(item),
        list@.no_duplicates(),
    ensures
        r < list@.len(),
        r == list@.index_of(item),
        list@[r as int] == item,
{
    let mut i: usize = 0;
    while i < list.len()
        invariant
            i <= list@.len(),
            list@.contains(item),
            list@.no_duplicates(),
            forall|j: int| 0 <= j < i ==> list@[j] != item,
        decreases list@.len() - i,
    {
        if list[i] == item {
            proof {
                lemma_index_of(list@, item, i as int);
            }
            return i;
        }
        i = i + 1;
    }
    assert(false);
    0
}

/// Taking a node from its parent keeps the forest, and leaves the parents of all other nodes.
proof fn lemma_orphaned(nodes: Map<u64, TreeNode>, rank: Map<u64, nat>, child: u64)
    requires
        forest(nodes, rank),
        nodes.contains_key(child),
    ensures
        forest(orphaned(nodes, child), rank),
        orphaned(nodes, child).dom() == nodes.dom(),
        orphaned(nodes, child)[child].parent is None,
        forall|node: u64|
            node != child && nodes.contains_key(node) ==> (
            #[trigger] orphaned(nodes, child)[node]).parent == nodes[node].parent,
        forall|node: u64| #[trigger]
            nodes.contains_key(node) ==> orphaned(nodes, child)[node].context
                == nodes[node].context,
        forall|node: u64|
            nodes.contains_key(node) && nodes[child].parent != Some(node) ==> (
            #[trigger] orphaned(nodes, child)[node]).children == nodes[node].children,
{
    assert(placed(nodes, rank, child));
    if let Some(parent) = nodes[child].parent {
        let list = nodes[parent].children;
        assert(placed(nodes, rank, parent));
        let index = choose|i: int| 0 <= i < list.len() && list[i] == child;
        lemma_index_of(list, child, index);
        lemma_detached(nodes, rank, parent, index);
    }
}

/// Taking nodes from their parents leaves them all in the tree, with their contexts.
pub(crate) proof fn lemma_orphans_stay(
    nodes: Map<u64, TreeNode>,
    rank: Map<u64, nat>,
    children: Seq<u64>,
)
    requires
        forest(nodes, rank),
        forall|i: int| 0 <= i < children.len() ==> nodes.contains_key(#[trigger] children[i]),
    ensures
        forest(all_orphaned(nodes, children), rank),
        all_orphaned(nodes, children).dom() == nodes.dom(),
        forall|node: u64| #[trigger]
            nodes.contains_key(node) ==> all_orphaned(nodes, children)[node].context
                == nodes[node].context,
    decreases children.len(),
{
    if children.len() > 0 {
        let shorter = children.drop_last();
        assert(children[children.len() - 1] == children.last());
        assert forall|i: int| 0 <= i < shorter.len() implies nodes.contains_key(
            #[trigger] shorter[i],
        ) by {
            assert(shorter[i] == children[i]);
        }
        lemma_orphans_stay(nodes, rank, shorter);
        let before = all_orphaned(nodes, shorter);
        assert(before.dom().contains(children.last()));
        lemma_orphaned(before, rank, children.last());
        assert forall|node: u64| #[trigger] nodes.contains_key(node) implies all_orphaned(
            nodes,
            children,
        )[node].context == nodes[node].context by {
            assert(before.dom().contains(node));
            assert(before.contains_key(node));
        }
    }
}

/// Taking nodes from their parents leaves the children of every node that is the parent of none.
pub(crate) proof fn lemma_all_orphaned(
    nodes: Map<u64, TreeNode>,
    rank: Map<u64, nat>,
    children: Seq<u64>,
    node: u64,
)
    requires
        forest(nodes, rank),
        children.no_duplicates(),
        forall|i: int| 0 <= i < children.len() ==> nodes.contains_key(#[trigger] children[i]),
        forall|i: int|
            0 <= i < children.len() ==> nodes[#[trigger] children[i]].parent != Some(node),
        nodes.contains_key(node),
    ensures
        forest(all_orphaned(nodes, children), rank),
        all_orphaned(nodes, children).dom() == nodes.dom(),
        all_orphaned(nodes, children)[node].children == nodes[node].children,
        all_orphaned(nodes, children)[node].context == nodes[node].context,
        forall|other: u64|
            nodes.contains_key(other) && !children.contains(other) ==> (#[trigger] all_orphaned(
                nodes,
                children,
            )[other]).parent == nodes[other].parent,
    decreases children.len(),
{
    if children.len() > 0 {
        let shorter = children.drop_last();
        let child = children.last();
        assert(children[children.len() - 1] == child);
        assert forall|i: int| 0 <= i < shorter.len() implies nodes.contains_key(
            #[trigger] shorter[i],
        ) && nodes[shorter[i]].parent != Some(node) && shorter[i] != child by {
            assert(shorter[i] == children[i]);
        }
        assert(shorter.no_duplicates()) by {
            assert forall|i: int, j: int|
                0 <= i < shorter.len() && 0 <= j < shorter.len() && i != j implies shorter[i]
                != shorter[j] by {
                assert(children[i] != children[j]);
            }
        }
        lemma_all_orphaned(nodes, rank, shorter, node);
        let before = all_orphaned(nodes, shorter);
        assert(!shorter.contains(child)) by {
            if shorter.contains(child) {
                let i = choose|i: int| 0 <= i < shorter.len() && shorter[i] == child;
                assert(shorter[i] != child);
            }
        }
        assert(before.dom().contains(child) && before.dom().contains(node));
        assert(before[child].parent == nodes[child].parent);
        lemma_orphaned(before, rank, child);
        assert(orphaned(before, child)[node].children == before[node].children);
        assert forall|other: u64|
            nodes.contains_key(other) && !children.contains(other) implies (
        #[trigger] all_orphaned(nodes, children)[other]).parent == nodes[other].parent by {
            assert(before.dom().contains(other));
            assert(!shorter.contains(other)) by {
                if shorter.contains(other) {
                    let i = choose|i: int| 0 <= i < shorter.len() && shorter[i] == other;
                    assert(children[i] == other);
                }
            }
            assert(orphaned(before, child)[other].parent == before[other].parent);
        }
    }
}

impl TaffyLayoutEngine {
    /// Nodes can become the children of a new node: they are of this frame, and have no parent that
    /// is.
    pub open spec fn adoptable(self, children: Seq<u64>) -> bool {
        &&& children.no_duplicates()
        &&& forall|i: int|
            0 <= i < children.len() ==> {
                &&& self.is_current(#[trigger] children[i])
                &&& self.nodes()[children[i]].parent matches Some(parent)
                    ==> !self.is_current(parent)
            }
    }

    /// The node is the parent of one of some nodes.
    pub open spec fn has_child_among(self, node: u64, children: Seq<u64>) -> bool {
        exists|i: int|
            0 <= i < children.len() && self.nodes()[#[trigger] children[i]].parent == Some(node)
    }

    /// Takes nodes from the parents that they had in the frame before.
    fn free_children(&mut self, children: &Vec<u64>)
        requires
            old(self).wf(),
            children@.no_duplicates(),
            forall|i: int|
                0 <= i < children@.len() ==> old(self).nodes().contains_key(
                    #[trigger] children@[i],
                ),
        ensures
            *final(self) == (TaffyLayoutEngine {
                taffy: final(self).taffy,
                cut: final(self).cut,
                ..*old(self)
            }),
            forall|node: u64| #[trigger]
                final(self).cut@.contains(node) == (old(self).cut@.contains(node) || old(
                    self,
                ).has_child_among(node, children@)),
            forest(final(self).nodes(), final(self).rank@),
            final(self).nodes() == all_orphaned(old(self).nodes(), children@),
            final(self).nodes().dom() == old(self).nodes().dom(),
            forall|i: int|
                0 <= i < children@.len() ==> final(self).nodes()[#[trigger] children@[i]].parent
                    is None,
            forall|node: u64| #[trigger]
                old(self).nodes().contains_key(node) && !old(self).has_child_among(node, children@)
                    ==> final(self).nodes()[node].children == old(self).nodes()[node].children,
    {
        broadcast use vstd::std_specs::hash::group_hash_axioms;

        let mut i: usize = 0;
        while i < children.len()
            invariant
                i <= children@.len(),
                forall|node: u64| #[trigger]
                    self.cut@.contains(node) == (old(self).cut@.contains(node) || old(
                        self,
                    ).has_child_among(node, children@.take(i as int))),
                forall|j: int|
                    0 <= j < children@.len() ==> old(self).nodes().contains_key(
                        #[trigger] children@[j],
                    ),
                *self == (TaffyLayoutEngine { taffy: self.taffy, cut: self.cut, ..*old(self) }),
                forest(self.nodes(), self.rank@),
                self.nodes() == all_orphaned(old(self).nodes(), children@.take(i as int)),
                self.nodes().dom() == old(self).nodes().dom(),
                forall|j: int|
                    0 <= j < i ==> self.nodes()[#[trigger] children@[j]].parent is None,
                forall|j: int|
                    i <= j < children@.len() ==> self.nodes()[#[trigger] children@[j]].parent
                        == old(self).nodes()[children@[j]].parent,
                children@.no_duplicates(),
                forall|node: u64| #[trigger]
                    old(self).nodes().contains_key(node) && !old(self).has_child_among(
                        node,
                        children@,
                    ) ==> self.nodes()[node].children == old(self).nodes()[node].children,
            decreases children@.len() - i,
        {
            broadcast use vstd::std_specs::hash::group_hash_axioms;

            let child = children[i];
            let ghost nodes = self.nodes();
            let ghost cut = self.cut@;
            proof {
                assert(children@.take(i + 1).drop_last() =~= children@.take(i as int));
                assert(old(self).nodes().contains_key(children@[i as int]));
                assert(nodes.dom().contains(child));
                assert(placed(nodes, self.rank@, child));
                lemma_orphaned(nodes, self.rank@, child);
                lemma_parents_present(nodes, self.rank@);
            }
            if let Some(parent) = tree_parent(&self.taffy, child) {
                assert(placed(nodes, self.rank@, parent));
                let siblings = tree_children(&self.taffy, parent);
                let index = find_item(&siblings, child);
                tree_remove_child_at_index(&mut self.taffy, parent, index);
                self.cut.insert(parent);
            }
            proof {
                assert forall|node: u64| #[trigger] self.cut@.contains(node) == (old(
                    self,
                ).cut@.contains(node) || old(self).has_child_among(
                    node,
                    children@.take(i + 1),
                )) by {
                    let before = children@.take(i as int);
                    let after = children@.take(i + 1);
                    assert(after[i as int] == child);
                    if old(self).has_child_among(node, before) {
                        let j = choose|j: int|
                            0 <= j < before.len() && old(self).nodes()[
                            #[trigger] before[j]].parent == Some(node);
                        assert(after[j] == before[j]);
                    }
                    if old(self).has_child_among(node, after) && nodes[child].parent != Some(
                        node,
                    ) {
                        let j = choose|j: int|
                            0 <= j < after.len() && old(self).nodes()[
                            #[trigger] after[j]].parent == Some(node);
                        assert(nodes[children@[i as int]].parent
                            == old(self).nodes()[children@[i as int]].parent);
                        assert(before[j] == after[j]);
                    }
                    assert(cut.contains(node) == (old(self).cut@.contains(node) || old(
                        self,
                    ).has_child_among(node, before)));
                    assert(nodes[children@[i as int]].parent
                        == old(self).nodes()[children@[i as int]].parent);
                }
                assert forall|j: int| 0 <= j < i + 1 implies self.nodes()[
                #[trigger] children@[j]].parent is None by {
                    if children@[j] != child {
                        assert(nodes.dom().contains(children@[j]));
                        assert(nodes[children@[j]].parent is None);
                    }
                }
                assert forall|j: int| i < j < children@.len() implies self.nodes()[
                #[trigger] children@[j]].parent == old(self).nodes()[children@[j]].parent by {
                    assert(children@[j] != child);
                    assert(nodes.dom().contains(children@[j]));
                }
                assert forall|node: u64| #[trigger]
                    old(self).nodes().contains_key(node) && !old(self).has_child_among(
                        node,
                        children@,
                    ) implies self.nodes()[node].children
                    == old(self).nodes()[node].children by {
                    assert(nodes.dom().contains(node));
                    assert(nodes[children@[i as int]].parent
                        == old(self).nodes()[children@[i as int]].parent);
                    assert(orphaned(nodes, child)[node].children == nodes[node].children);
                }
            }
            i = i + 1;
        }
        assert(children@.take(i as int) =~= children@);
    }

    /// What the creation of a node does.
    pub open spec fn created(
        self,
        key: u64,
        style: TaffyStyle,
        children: Seq<u64>,
        context: Option<NodeContext>,
        id: u64,
        after: TaffyLayoutEngine,
    ) -> bool {
        &&& !self.nodes().contains_key(id)
        &&& after.nodes() == if children.len() == 0 {
            self.nodes().insert(id, new_node(Seq::empty(), context))
        } else {
            adopted(all_orphaned(self.nodes(), children), id, children)
        }
        &&& after.styles@ == self.styles@.insert(id, style)
        &&& after.unstyled@ == self.unstyled@.push(id)
        &&& forall|node: u64| #[trigger]
            after.cut@.contains(node) == (self.cut@.contains(node) || self.has_child_among(
                node,
                children,
            ))
        &&& after.live@ == self.live@.push((key, id))
        &&& after.reuse_counts == (sum(self.reuse_counts.0, 1), self.reuse_counts.1)
        &&& after == TaffyLayoutEngine {
            taffy: after.taffy,
            cut: after.cut,
            styles: after.styles,
            unstyled: after.unstyled,
            live: after.live,
            reuse_counts: after.reuse_counts,
            rank: after.rank,
            top: after.top,
            ..self
        }
    }

    /// What the reuse of a node does. `index` is its place in the pool.
    pub open spec fn kept(self, key: u64, index: int, id: u64, after: TaffyLayoutEngine) -> bool {
        &&& self.pool_has(key, index, id)
        &&& after.pool@.dom() == self.pool@.dom()
        &&& after.pool@[key]@ == swap_removed(self.pool@[key]@, index)
        &&& forall|other: u64|
            other != key && self.pool@.contains_key(other) ==> #[trigger] after.pool@[other]
                == self.pool@[other]
        &&& after.live@ == self.live@.push((key, id))
        &&& after.reuse_counts == (self.reuse_counts.0, sum(self.reuse_counts.1, 1))
        &&& after == TaffyLayoutEngine {
            taffy: after.taffy,
            pool: after.pool,
            live: after.live,
            pending_remeasure: after.pending_remeasure,
            reuse_counts: after.reuse_counts,
            ..self
        }
    }

    /// What a request of a node without a measure function does: a node of the frame before is
    /// kept, if there is one, or else one is created.
    pub open spec fn requested(
        self,
        style: TaffyStyle,
        children: Seq<u64>,
        id: u64,
        after: TaffyLayoutEngine,
    ) -> bool {
        let key = if self.retain {
            key_of(style, children, 0)
        } else {
            0
        };
        let reusable = if self.retain {
            self.reusable(key, style, children, None)
        } else {
            None
        };
        match reusable {
            Some(index) => {
                &&& self.kept(key, index, id, after)
                &&& after.taffy == self.taffy
                &&& after.pending_remeasure == self.pending_remeasure
            },
            None => self.created(key, style, children, None, id, after),
        }
    }

    /// What a request of a measured leaf does. Only one with a content key can be kept; it gets the
    /// measure function of this frame and is to be measured again.
    pub open spec fn requested_measured(
        self,
        style: TaffyStyle,
        content_key: Option<u64>,
        measure: u64,
        id: u64,
        after: TaffyLayoutEngine,
    ) -> bool {
        let keeps = self.retain && content_key is Some;
        let key = if keeps {
            key_of(style, Seq::empty(), content_key->0)
        } else {
            0
        };
        let reusable = if keeps {
            self.reusable(key, style, Seq::empty(), content_key)
        } else {
            None
        };
        match reusable {
            Some(index) => {
                &&& self.kept(key, index, id, after)
                &&& after.nodes() == self.nodes().insert(
                    id,
                    TreeNode {
                        context: Some(NodeContext { measure, ..self.nodes()[id].context->0 }),
                        ..self.nodes()[id]
                    },
                )
                &&& after.pending_remeasure@ == self.pending_remeasure@.push(id)
            },
            None => self.created(
                key,
                style,
                Seq::empty(),
                Some(NodeContext { measure, content_key, last_args: None }),
                id,
                after,
            ),
        }
    }
}

/// The numbers of nodes.
pub open spec fn numbers(ids: Seq<LayoutId>) -> Seq<u64> {
    ids.map_values(|id: LayoutId| id.0)
}

/// Nodes keep their order when they are named by their numbers.
pub proof fn law_numbers_keep_their_order(ids: Seq<LayoutId>, i: int)
    requires
        0 <= i < ids.len(),
    ensures
        numbers(ids).len() == ids.len(),
        numbers(ids)[i] == ids[i].0,
{
}

fn numbers_of(ids: &Vec<LayoutId>) -> (r: Vec<u64>)
    ensures
        r@ == numbers(ids@),
{
    let mut list: Vec<u64> = Vec::new();
    let mut i: usize = 0;
    while i < ids.len()
        invariant
            i <= ids@.len(),
            list@ == numbers(ids@.take(i as int)),
        decreases ids@.len() - i,
    {
        list.push(ids[i].0);
        assert(list@ =~= numbers(ids@.take(i + 1)));
        i = i + 1;
    }
    assert(ids@.take(i as int) =~= ids@);
    list
}

impl TaffyLayoutEngine {
    /// An engine stays well-formed when a node joins the tree and is handed out.
    proof fn lemma_created(before: TaffyLayoutEngine, after: TaffyLayoutEngine, key: u64, id: u64)
        requires
            before.wf(),
            !before.nodes().contains_key(id),
            after.nodes().dom() == before.nodes().dom().insert(id),
            forest(after.nodes(), after.rank@),
            after.rank@ == before.rank@.insert(id, after.rank@[id]),
            before.top@ <= after.top@,
            after.rank@[id] < after.top@,
            after.styles@.dom() == before.styles@.dom().insert(id),
            after.live@ == before.live@.push((key, id)),
            before.retain ==> {
                &&& forall|i: int|
                    0 <= i < before.live@.len() ==> after.nodes()[(
                    #[trigger] before.live@[i]).1].children
                        == before.nodes()[before.live@[i].1].children
                &&& forall|j: int|
                    0 <= j < after.nodes()[id].children.len() ==> before.is_live(
                        #[trigger] after.nodes()[id].children[j],
                    )
            },
            after == (TaffyLayoutEngine {
                taffy: after.taffy,
                cut: after.cut,
                styles: after.styles,
                unstyled: after.unstyled,
                live: after.live,
                reuse_counts: after.reuse_counts,
                rank: after.rank,
                top: after.top,
                ..before
            }),
        ensures
            after.wf(),
    {
        assert forall|node: u64| #[trigger] after.nodes().contains_key(node) == (node == id
            || before.nodes().contains_key(node)) by {
            assert(after.nodes().dom().contains(node) == before.nodes().dom().insert(id).contains(
                node,
            ));
        }
        assert(after.wf_pool()) by {
            assert forall|k: u64, j: int, n: u64| #[trigger] after.pool_has(k, j, n) implies
                after.nodes().contains_key(n) by {
                assert(before.pool_has(k, j, n));
            }
            assert forall|k: u64, j: int, k2: u64, j2: int, n: u64|
                #![trigger after.pool_has(k, j, n), after.pool_has(k2, j2, n)]
                after.pool_has(k, j, n) && after.pool_has(k2, j2, n) implies k == k2 && j
                == j2 by {
                assert(before.pool_has(k, j, n) && before.pool_has(k2, j2, n));
            }
        }
        if after.retain {
            assert forall|k: u64, j: int, n: u64| #[trigger] after.pool_has(k, j, n) implies
                !after.is_live(n) by {
                assert(before.pool_has(k, j, n));
                assert(!before.is_live(n));
                if after.is_live(n) {
                    let i = choose|i: int| 0 <= i < after.live@.len() && after.live@[i].1 == n;
                    if i < before.live@.len() {
                        assert(before.live@[i].1 == n);
                    }
                }
            }
            assert forall|i: int, j: int|
                #![trigger after.live@[i], after.live@[j]]
                0 <= i < j < after.live@.len() implies after.live@[i].1 != after.live@[j].1 by {
                assert(after.live@[i] == before.live@[i]);
                if j < before.live@.len() {
                    assert(after.live@[j] == before.live@[j]);
                }
            }
            assert forall|i: int| 0 <= i < after.live@.len() implies after.is_whole(
                (#[trigger] after.live@[i]).1,
            ) by {
                let node = after.live@[i].1;
                assert forall|j: int| 0 <= j < after.nodes()[node].children.len() implies
                    after.is_live(#[trigger] after.nodes()[node].children[j]) by {
                    if i < before.live@.len() {
                        assert(before.is_whole(before.live@[i].1));
                        assert(before.is_live(before.nodes()[node].children[j]));
                    }
                    Self::lemma_stays_live(before, after, after.nodes()[node].children[j]);
                }
            }
            assert(after.wf_live());
        }
    }

    proof fn lemma_stays_live(before: TaffyLayoutEngine, after: TaffyLayoutEngine, node: u64)
        requires
            before.is_live(node),
            before.live@.len() <= after.live@.len(),
            forall|i: int|
                0 <= i < before.live@.len() ==> #[trigger] after.live@[i] == before.live@[i],
        ensures
            after.is_live(node),
    {
        let i = choose|i: int| 0 <= i < before.live@.len() && before.live@[i].1 == node;
        assert(after.live@[i].1 == node);
    }

    /// Makes a node and hands it out.
    fn create(
        &mut self,
        key: u64,
        style: TaffyStyle,
        children: &Vec<u64>,
        context: Option<NodeContext>,
    ) -> (r: u64)
        requires
            old(self).wf(),
            context is Some ==> children@.len() == 0,
            old(self).adoptable(children@),
        ensures
            final(self).wf(),
            old(self).created(key, style, children@, context, r, *final(self)),
    {
        broadcast use vstd::std_specs::hash::group_hash_axioms;

        let node: u64;
        if children.len() == 0 {
            node = match context {
                Some(context) => tree_new_leaf_with_context(&mut self.taffy, context),
                None => tree_new_leaf(&mut self.taffy),
            };
            proof {
                lemma_new_leaf(old(self).nodes(), self.rank@, node, context);
                self.rank@ = self.rank@.insert(node, 0);
                self.top@ = self.top@ + 1;
            }
        } else {
            self.free_children(children);
            let ghost freed = self.nodes();
            node = tree_new_with_children(&mut self.taffy, children);
            proof {
                lemma_adopted(freed, self.rank@, node, children@);
                assert(self.nodes().dom() =~= freed.dom().insert(node));
                let height = above(self.rank@, children@);
                self.rank@ = self.rank@.insert(node, height);
                self.top@ = self.top@ + height + 1;
            }
        }
        self.styles.insert(node, style);
        self.unstyled.push(node);
        self.live.push((key, node));
        self.reuse_counts.0 = count_up(self.reuse_counts.0, 1);
        proof {
            if old(self).retain {
                assert forall|i: int| 0 <= i < old(self).live@.len() implies self.nodes()[(
                #[trigger] old(self).live@[i]).1].children
                    == old(self).nodes()[old(self).live@[i].1].children by {
                    let other = old(self).live@[i].1;
                    assert(old(self).nodes().contains_key(other));
                    assert(old(self).is_live(other));
                    assert(!old(self).has_child_among(other, children@));
                }
            }
            Self::lemma_created(*old(self), *self, key, node);
        }
        node
    }
}

impl TaffyLayoutEngine {
    /// An engine stays well-formed when a node that is not in the pool is handed out.
    proof fn lemma_handed_out(
        before: TaffyLayoutEngine,
        after: TaffyLayoutEngine,
        key: u64,
        id: u64,
    )
        requires
            before.wf(),
            before.retain,
            before.nodes().contains_key(id),
            !before.is_live(id),
            before.is_whole(id),
            forall|k: u64, j: int| !before.pool_has(k, j, id),
            after.live@ == before.live@.push((key, id)),
            after == (TaffyLayoutEngine {
                live: after.live,
                reuse_counts: after.reuse_counts,
                ..before
            }),
        ensures
            after.wf(),
    {
        assert(after.nodes() == before.nodes());
        assert(after.wf_pool()) by {
            assert forall|k: u64, j: int, n: u64| #[trigger] after.pool_has(k, j, n) implies
                after.nodes().contains_key(n) by {
                assert(before.pool_has(k, j, n));
            }
            assert forall|k: u64, j: int, k2: u64, j2: int, n: u64|
                #![trigger after.pool_has(k, j, n), after.pool_has(k2, j2, n)]
                after.pool_has(k, j, n) && after.pool_has(k2, j2, n) implies k == k2 && j
                == j2 by {
                assert(before.pool_has(k, j, n) && before.pool_has(k2, j2, n));
            }
        }
        assert forall|k: u64, j: int, n: u64| #[trigger] after.pool_has(k, j, n) implies
            !after.is_live(n) by {
            assert(before.pool_has(k, j, n));
            assert(!before.is_live(n));
            if after.is_live(n) {
                let i = choose|i: int| 0 <= i < after.live@.len() && after.live@[i].1 == n;
                if i < before.live@.len() {
                    assert(before.live@[i].1 == n);
                } else {
                    assert(n == id);
                }
            }
        }
        assert forall|i: int, j: int|
            #![trigger after.live@[i], after.live@[j]]
            0 <= i < j < after.live@.len() implies after.live@[i].1 != after.live@[j].1 by {
            assert(after.live@[i] == before.live@[i]);
            if j < before.live@.len() {
                assert(after.live@[j] == before.live@[j]);
            }
        }
        assert forall|i: int| 0 <= i < after.live@.len() implies after.is_whole(
            (#[trigger] after.live@[i]).1,
        ) by {
            let node = after.live@[i].1;
            assert(i < before.live@.len() ==> before.is_whole(before.live@[i].1));
            assert forall|j: int| 0 <= j < after.nodes()[node].children.len() implies
                after.is_live(#[trigger] after.nodes()[node].children[j]) by {
                assert(before.is_live(before.nodes()[node].children[j]));
                Self::lemma_stays_live(before, after, after.nodes()[node].children[j]);
            }
        }
        assert(after.wf_live());
    }

    /// Hands out a node again that was taken from the pool.
    fn keep(&mut self, key: u64, node: u64)
        requires
            old(self).wf(),
            old(self).retain,
            old(self).nodes().contains_key(node),
            !old(self).is_live(node),
            old(self).is_whole(node),
            forall|k: u64, j: int| !old(self).pool_has(k, j, node),
        ensures
            final(self).wf(),
            final(self).live@ == old(self).live@.push((key, node)),
            final(self).reuse_counts == (
                old(self).reuse_counts.0,
                sum(old(self).reuse_counts.1, 1),
            ),
            *final(self) == (TaffyLayoutEngine {
                live: final(self).live,
                reuse_counts: final(self).reuse_counts,
                ..*old(self)
            }),
    {
        self.live.push((key, node));
        self.reuse_counts.1 = count_up(self.reuse_counts.1, 1);
        proof {
            Self::lemma_handed_out(*old(self), *self, key, node);
        }
    }

    /// Requests a node with a style that is in the solver's form already.
    fn request_node(&mut self, style: TaffyStyle, children: &Vec<u64>) -> (r: u64)
        requires
            old(self).wf(),
            old(self).adoptable(children@),
        ensures
            final(self).wf(),
            old(self).requested(style, children@, r, *final(self)),
            final(self).is_current(r),
    {
        let mut key: u64 = 0;
        if self.retain {
            key = structural_key(&style, children, 0);
            if let Some(node) = self.take_reusable(key, &style, children, None) {
                proof {
                    assert(old(self).nodes().contains_key(node));
                    assert(!old(self).is_live(node));
                    old(self).lemma_reusable_matches(
                        old(self).pool@[key]@,
                        style,
                        children@,
                        None,
                    );
                    assert forall|j: int| 0 <= j < self.nodes()[node].children.len() implies
                        self.is_live(#[trigger] self.nodes()[node].children[j]) by {
                        assert(old(self).is_current(children@[j]));
                        Self::lemma_stays_live(*old(self), *self, children@[j]);
                    }
                }
                self.keep(key, node);
                assert(self.live@[self.live@.len() - 1].1 == node);
                return node;
            }
        }
        let node = self.create(key, style, children, None);
        assert(self.live@[self.live@.len() - 1].1 == node);
        node
    }
}

impl TaffyLayoutEngine {
    /// Requests a node. `snap` turns an authored length into whole device pixels, `snap_stroke` does
    /// so for border widths.
    pub fn request_layout<F: Fn(AbsoluteLength) -> Real32, G: Fn(AbsoluteLength) -> Real32>(
        &mut self,
        style: &Style,
        snap: &F,
        snap_stroke: &G,
        children: &Vec<LayoutId>,
    ) -> (r: LayoutId)
        requires
            old(self).wf(),
            old(self).adoptable(numbers(children@)),
            forall|length: AbsoluteLength| call_requires(*snap, (length,)),
            forall|length: AbsoluteLength| call_requires(*snap_stroke, (length,)),
        ensures
            final(self).wf(),
            final(self).is_current(r.0),
            exists|taffy_style: TaffyStyle| #[trigger]
                style.converts_to(*snap, *snap_stroke, taffy_style) && old(self).requested(
                    taffy_style,
                    numbers(children@),
                    r.0,
                    *final(self),
                ),
    {
        let taffy_style = style.to_taffy(snap, snap_stroke);
        let children = numbers_of(children);
        LayoutId(self.request_node(taffy_style, &children))
    }

    /// Requests a leaf that measures itself. `measure` names the function that does.
    pub fn request_measured_layout<
        F: Fn(AbsoluteLength) -> Real32,
        G: Fn(AbsoluteLength) -> Real32,
    >(&mut self, style: &Style, snap: &F, snap_stroke: &G, measure: u64) -> (r: LayoutId)
        requires
            old(self).wf(),
            forall|length: AbsoluteLength| call_requires(*snap, (length,)),
            forall|length: AbsoluteLength| call_requires(*snap_stroke, (length,)),
        ensures
            final(self).wf(),
            final(self).is_current(r.0),
            exists|taffy_style: TaffyStyle| #[trigger]
                style.converts_to(*snap, *snap_stroke, taffy_style)
                    && old(self).requested_measured(
                    taffy_style,
                    None,
                    measure,
                    r.0,
                    *final(self),
                ),
    {
        self.request_measured_layout_keyed(style, snap, snap_stroke, None, measure)
    }

    /// Requests a leaf that measures itself, with a key that has to change with everything that the
    /// measure function depends on besides the available space. A leaf with a key is kept from frame
    /// to frame.
    pub fn request_measured_layout_keyed<
        F: Fn(AbsoluteLength) -> Real32,
        G: Fn(AbsoluteLength) -> Real32,
    >(
        &mut self,
        style: &Style,
        snap: &F,
        snap_stroke: &G,
        content_key: Option<u64>,
        measure: u64,
    ) -> (r: LayoutId)
        requires
            old(self).wf(),
            forall|length: AbsoluteLength| call_requires(*snap, (length,)),
            forall|length: AbsoluteLength| call_requires(*snap_stroke, (length,)),
        ensures
            final(self).wf(),
            final(self).is_current(r.0),
            exists|taffy_style: TaffyStyle| #[trigger]
                style.converts_to(*snap, *snap_stroke, taffy_style)
                    && old(self).requested_measured(
                    taffy_style,
                    content_key,
                    measure,
                    r.0,
                    *final(self),
                ),
    {
        let taffy_style = style.to_taffy(snap, snap_stroke);
        LayoutId(self.request_measured_node(taffy_style, content_key, measure))
    }

    /// Requests a measured leaf with a style that is in the solver's form already.
    fn request_measured_node(
        &mut self,
        style: TaffyStyle,
        content_key: Option<u64>,
        measure: u64,
    ) -> (r: u64)
        requires
            old(self).wf(),
        ensures
            final(self).wf(),
            old(self).requested_measured(style, content_key, measure, r, *final(self)),
            final(self).is_current(r),
    {
        let no_children: Vec<u64> = Vec::new();
        assert(no_children@ =~= Seq::<u64>::empty());
        let mut key: u64 = 0;
        if self.retain && content_key.is_some() {
            key = structural_key(&style, &no_children, content_key.unwrap());
            if let Some(node) = self.take_reusable(key, &style, &no_children, content_key) {
                proof {
                    assert(old(self).nodes().contains_key(node));
                    assert(!old(self).is_live(node));
                    old(self).lemma_reusable_matches(
                        old(self).pool@[key]@,
                        style,
                        no_children@,
                        content_key,
                    );
                }
                self.keep(key, node);
                self.swap_measure(node, measure);
                assert(self.live@[self.live@.len() - 1].1 == node);
                return node;
            }
        }
        let node = self.create(
            key,
            style,
            &no_children,
            Some(NodeContext { measure, content_key, last_args: None }),
        );
        assert(self.live@[self.live@.len() - 1].1 == node);
        node
    }

    /// What can be kept matches what is asked for.
    pub(crate) proof fn lemma_reusable_matches(
        self,
        bucket: Seq<u64>,
        style: TaffyStyle,
        children: Seq<u64>,
        content: Option<u64>,
    )
        requires
            self.first_match(bucket, style, children, content) is Some,
        ensures
            0 <= self.first_match(bucket, style, children, content)->0 < bucket.len(),
            self.matches(
                bucket[self.first_match(bucket, style, children, content)->0],
                style,
                children,
                content,
            ),
        decreases bucket.len(),
    {
        let shorter = bucket.drop_last();
        if self.first_match(shorter, style, children, content) is Some {
            self.lemma_reusable_matches(shorter, style, children, content);
        }
    }

    /// An engine stays well-formed when only the contexts of nodes change and leaves wait to be
    /// measured.
    proof fn lemma_same_nodes(before: TaffyLayoutEngine, after: TaffyLayoutEngine)
        requires
            before.wf(),
            before.retain,
            after.nodes().dom() == before.nodes().dom(),
            forall|node: u64|
                (#[trigger] after.nodes()[node]).children == before.nodes()[node].children,
            forest(after.nodes(), after.rank@),
            forall|i: int|
                0 <= i < after.pending_remeasure@.len() ==> after.nodes().contains_key(
                    #[trigger] after.pending_remeasure@[i],
                ),
            after == (TaffyLayoutEngine {
                taffy: after.taffy,
                pending_remeasure: after.pending_remeasure,
                ..before
            }),
        ensures
            after.wf(),
    {
        assert forall|node: u64| #[trigger] after.nodes().contains_key(node)
            == before.nodes().contains_key(node) by {
            assert(after.nodes().dom().contains(node) == before.nodes().dom().contains(node));
        }
        assert(after.wf_pool()) by {
            assert forall|k: u64, j: int, n: u64| #[trigger] after.pool_has(k, j, n) implies
                after.nodes().contains_key(n) by {
                assert(before.pool_has(k, j, n));
            }
            assert forall|k: u64, j: int, k2: u64, j2: int, n: u64|
                #![trigger after.pool_has(k, j, n), after.pool_has(k2, j2, n)]
                after.pool_has(k, j, n) && after.pool_has(k2, j2, n) implies k == k2 && j
                == j2 by {
                assert(before.pool_has(k, j, n) && before.pool_has(k2, j2, n));
            }
        }
        assert(after.wf_live()) by {
            assert forall|k: u64, j: int, n: u64| #[trigger] after.pool_has(k, j, n) implies
                !after.is_live(n) by {
                assert(before.pool_has(k, j, n));
                assert(!before.is_live(n));
            }
            assert forall|i: int| 0 <= i < after.live@.len() implies after.is_whole(
                (#[trigger] after.live@[i]).1,
            ) by {
                let node = after.live@[i].1;
                assert(before.is_whole(before.live@[i].1));
                assert forall|j: int| 0 <= j < after.nodes()[node].children.len() implies
                    after.is_live(#[trigger] after.nodes()[node].children[j]) by {
                    assert(after.nodes()[node].children == before.nodes()[node].children);
                    assert(before.is_live(before.nodes()[node].children[j]));
                }
            }
        }
    }

    /// Gives a measured leaf that is kept the measure function of this frame.
    fn swap_measure(&mut self, node: u64, measure: u64)
        requires
            old(self).wf(),
            old(self).retain,
            old(self).nodes().contains_key(node),
            old(self).nodes()[node].context is Some,
        ensures
            final(self).wf(),
            final(self).nodes() == old(self).nodes().insert(
                node,
                TreeNode {
                    context: Some(NodeContext { measure, ..old(self).nodes()[node].context->0 }),
                    ..old(self).nodes()[node]
                },
            ),
            final(self).pending_remeasure@ == old(self).pending_remeasure@.push(node),
            *final(self) == (TaffyLayoutEngine {
                taffy: final(self).taffy,
                pending_remeasure: final(self).pending_remeasure,
                ..*old(self)
            }),
    {
        if let Some(context) = tree_context(&self.taffy, node) {
            let fresh = NodeContext { measure, ..context };
            proof {
                lemma_replaced_context(self.nodes(), self.rank@, node, fresh);
            }
            tree_replace_context(&mut self.taffy, node, fresh);
        }
        self.pending_remeasure.push(node);
        proof {
            assert(self.nodes().dom() =~= old(self).nodes().dom());
            Self::lemma_same_nodes(*old(self), *self);
        }
    }
}

impl TaffyLayoutEngine {
    /// Whether a node is in the tree.
    pub fn has_node(&self, id: LayoutId) -> (r: bool)
        requires
            self.wf(),
        ensures
            r == self.nodes().contains_key(id.0),
    {
        broadcast use vstd::std_specs::hash::group_hash_axioms;

        assert(self.styles@.dom().contains(id.0) == self.nodes().dom().contains(id.0));
        self.styles.contains_key(&id.0)
    }

    fn is_live_node(&self, node: u64) -> (r: bool)
        ensures
            r == self.is_live(node),
    {
        let mut i: usize = 0;
        while i < self.live.len()
            invariant
                i <= self.live@.len(),
                forall|j: int| 0 <= j < i ==> (#[trigger] self.live@[j]).1 != node,
            decreases self.live@.len() - i,
        {
            if self.live[i].1 == node {
                assert(self.live@[i as int].1 == node);
                return true;
            }
            i = i + 1;
        }
        false
    }

    /// Whether a node belongs to the tree of this frame.
    pub fn is_current_node(&self, id: LayoutId) -> (r: bool)
        requires
            self.wf(),
        ensures
            r == self.is_current(id.0),
    {
        self.has_node(id) && (!self.retain || self.is_live_node(id.0))
    }

    /// Whether nodes can become the children of a new node.
    pub fn can_adopt(&self, children: &Vec<LayoutId>) -> (r: bool)
        requires
            self.wf(),
        ensures
            r == self.adoptable(numbers(children@)),
    {
        let ghost list = numbers(children@);
        let mut i: usize = 0;
        while i < children.len()
            invariant
                self.wf(),
                list == numbers(children@),
                i <= children@.len(),
                forall|j: int, k: int| 0 <= j < k < i ==> list[j] != list[k],
                forall|j: int|
                    0 <= j < i ==> {
                        &&& self.is_current(#[trigger] list[j])
                        &&& self.nodes()[list[j]].parent matches Some(parent)
                            ==> !self.is_current(parent)
                    },
            decreases children@.len() - i,
        {
            let child = children[i];
            assert(list[i as int] == child.0);
            let mut j: usize = 0;
            while j < i
                invariant
                    list == numbers(children@),
                    j <= i < children@.len(),
                    list[i as int] == child.0,
                    forall|k: int| 0 <= k < j ==> list[k] != child.0,
                decreases i - j,
            {
                assert(list[j as int] == children@[j as int].0);
                if children[j].0 == child.0 {
                    return false;
                }
                j = j + 1;
            }
            if !self.is_current_node(child) {
                return false;
            }
            if let Some(parent) = tree_parent(&self.taffy, child.0) {
                if self.is_current_node(LayoutId(parent)) {
                    return false;
                }
            }
            i = i + 1;
        }
        true
    }
}

pub open spec fn is_other(gone: Seq<u64>) -> spec_fn(u64) -> bool {
    |child: u64| !gone.contains(child)
}

/// The nodes of a list that are not among others, in their order.
pub open spec fn others(list: Seq<u64>, gone: Seq<u64>) -> Seq<u64> {
    list.filter(is_other(gone))
}

proof fn lemma_filter_one(list: Seq<u64>, index: int, stays: spec_fn(u64) -> bool)
    requires
        list.no_duplicates(),
        0 <= index < list.len(),
        forall|child: u64| #[trigger] stays(child) == (child != list[index]),
    ensures
        list.filter(stays) == list.remove(index),
    decreases list.len(),
{
    reveal(Seq::filter);
    let item = list[index];
    let shorter = list.drop_last();
    if index == list.len() - 1 {
        lemma_filter_all(shorter, stays);
        assert(!stays(list.last()));
        assert(list.remove(index) =~= shorter);
    } else {
        assert(shorter[index] == item);
        lemma_filter_one(shorter, index, stays);
        assert(stays(list.last()));
        assert(list.remove(index) =~= shorter.remove(index).push(list.last()));
    }
}

proof fn lemma_filter_all(list: Seq<u64>, stays: spec_fn(u64) -> bool)
    requires
        forall|i: int| 0 <= i < list.len() ==> stays(#[trigger] list[i]),
    ensures
        list.filter(stays) == list,
    decreases list.len(),
{
    reveal(Seq::filter);
    if list.len() > 0 {
        let shorter = list.drop_last();
        assert forall|i: int| 0 <= i < shorter.len() implies stays(#[trigger] shorter[i]) by {
            assert(shorter[i] == list[i]);
        }
        lemma_filter_all(shorter, stays);
        assert(stays(list[list.len() - 1]));
        assert(shorter.push(list.last()) =~= list);
    } else {
        assert(list.filter(stays) =~= list);
    }
}

proof fn lemma_filter_both(
    list: Seq<u64>,
    one: spec_fn(u64) -> bool,
    other: spec_fn(u64) -> bool,
    both: spec_fn(u64) -> bool,
)
    requires
        forall|child: u64| #[trigger] both(child) == (one(child) && other(child)),
    ensures
        list.filter(one).filter(other) == list.filter(both),
    decreases list.len(),
{
    reveal(Seq::filter);
    if list.len() > 0 {
        lemma_filter_both(list.drop_last(), one, other, both);
        let front = list.drop_last().filter(one);
        assert(both(list.last()) == (one(list.last()) && other(list.last())));
        if one(list.last()) {
            assert(front.push(list.last()).drop_last() =~= front);
        }
    }
}

/// Nodes that get a new parent leave the one that they had: they are no longer among its children, which
/// keep their order. The parents of all other nodes stay, and so does what the nodes are measured with.
pub proof fn law_children_leave_their_parents(
    nodes: Map<u64, TreeNode>,
    rank: Map<u64, nat>,
    children: Seq<u64>,
    node: u64,
)
    requires
        forest(nodes, rank),
        forall|i: int| 0 <= i < children.len() ==> nodes.contains_key(#[trigger] children[i]),
        nodes.contains_key(node),
    ensures
        all_orphaned(nodes, children).contains_key(node),
        all_orphaned(nodes, children)[node].children == others(nodes[node].children, children),
        all_orphaned(nodes, children)[node].parent == if children.contains(node) {
            None
        } else {
            nodes[node].parent
        },
        all_orphaned(nodes, children)[node].context == nodes[node].context,
    decreases children.len(),
{
    lemma_orphans_stay(nodes, rank, children);
    assert(all_orphaned(nodes, children).dom().contains(node));
    let list = nodes[node].children;
    if children.len() == 0 {
        lemma_filter_all(list, is_other(children));
    } else {
        let shorter = children.drop_last();
        let child = children.last();
        assert(children[children.len() - 1] == child);
        assert forall|i: int| 0 <= i < shorter.len() implies nodes.contains_key(
            #[trigger] shorter[i],
        ) by {
            assert(shorter[i] == children[i]);
        }
        law_children_leave_their_parents(nodes, rank, shorter, node);
        lemma_orphans_stay(nodes, rank, shorter);
        let before = all_orphaned(nodes, shorter);
        assert(before.dom().contains(child));
        assert(before.contains_key(child));
        lemma_orphaned(before, rank, child);
        assert forall|other: u64| #[trigger] children.contains(other) == (shorter.contains(other)
            || other == child) by {
            lemma_among(children, other);
        }
        let one = is_other(shorter);
        let two = |other: u64| other != child;
        let both = is_other(children);
        lemma_filter_both(list, one, two, both);
        let left = before[node].children;
        assert(left == list.filter(one));
        assert(placed(before, rank, node));
        assert(placed(before, rank, child));
        if before[child].parent == Some(node) {
            let index = choose|i: int| 0 <= i < left.len() && left[i] == child;
            lemma_index_of(left, child, index);
            lemma_filter_one(left, index, two);
            assert(child != node);
            assert(all_orphaned(nodes, children)[node].children == left.remove(index));
        } else {
            assert forall|i: int| 0 <= i < left.len() implies two(#[trigger] left[i]) by {
                assert(before[left[i]].parent == Some(node));
            }
            lemma_filter_all(left, two);
        }
    }
}

proof fn lemma_among(children: Seq<u64>, item: u64)
    requires
        children.len() > 0,
    ensures
        children.contains(item) == (children.drop_last().contains(item) || item
            == children.last()),
{
    let shorter = children.drop_last();
    if children.contains(item) {
        let i = choose|i: int| 0 <= i < children.len() && children[i] == item;
        if i < shorter.len() {
            assert(shorter[i] == item);
        }
    }
    if shorter.contains(item) {
        let i = choose|i: int| 0 <= i < shorter.len() && shorter[i] == item;
        assert(children[i] == item);
    }
    assert(children[children.len() - 1] == children.last());
}

} // verus!
