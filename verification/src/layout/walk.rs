//! Walks over the tree of nodes, downward.

use crate::layout::engine::{LayoutId, TaffyLayoutEngine};
use crate::layout::forest::{
    descendants, forest, lemma_weight_add, lemma_weight_bound, placed, subtree, visited, weight,
};
use crate::layout::tree::{tree_children, TreeNode};
use vstd::prelude::*;

verus! {

/// The number of levels of the tallest of some subtrees. Nodes of a rank that is not below the bound
/// are left out; in a forest the children of a node are all below its rank.
pub open spec fn tallest(
    nodes: Map<u64, TreeNode>,
    rank: Map<u64, nat>,
    ids: Seq<u64>,
    bound: nat,
) -> nat
    decreases bound, ids.len(),
{
    if ids.len() == 0 {
        0
    } else {
        let rest = tallest(nodes, rank, ids.drop_last(), bound);
        let last = if rank[ids.last()] < bound {
            1 + tallest(nodes, rank, nodes[ids.last()].children, rank[ids.last()])
        } else {
            0
        };
        if rest < last {
            last
        } else {
            rest
        }
    }
}

/// The number of levels of a subtree.
pub open spec fn height(nodes: Map<u64, TreeNode>, rank: Map<u64, nat>, id: u64) -> nat {
    1 + tallest(nodes, rank, nodes[id].children, rank[id])
}

/// The edges from a node to some of its children and all those below. A child comes before what is
/// below it, and that before the next child.
pub open spec fn edges_below(
    nodes: Map<u64, TreeNode>,
    rank: Map<u64, nat>,
    parent: u64,
    ids: Seq<u64>,
    bound: nat,
) -> Seq<(LayoutId, LayoutId)>
    decreases bound, ids.len(),
{
    if ids.len() == 0 {
        seq![]
    } else {
        edges_below(nodes, rank, parent, ids.drop_last(), bound).push(
            (LayoutId(parent), LayoutId(ids.last())),
        ) + if rank[ids.last()] < bound {
            edges_below(
                nodes,
                rank,
                ids.last(),
                nodes[ids.last()].children,
                rank[ids.last()],
            )
        } else {
            seq![]
        }
    }
}

proof fn lemma_weight_take(
    nodes: Map<u64, TreeNode>,
    rank: Map<u64, nat>,
    ids: Seq<u64>,
    bound: nat,
    count: int,
)
    requires
        0 <= count <= ids.len(),
    ensures
        weight(nodes, rank, ids.take(count), bound) <= weight(nodes, rank, ids, bound),
{
    assert(ids =~= ids.take(count) + ids.skip(count));
    lemma_weight_add(nodes, rank, ids.take(count), ids.skip(count), bound);
}

proof fn lemma_tallest_take(
    nodes: Map<u64, TreeNode>,
    rank: Map<u64, nat>,
    ids: Seq<u64>,
    bound: nat,
    count: int,
)
    requires
        0 <= count <= ids.len(),
    ensures
        tallest(nodes, rank, ids.take(count), bound) <= tallest(nodes, rank, ids, bound),
    decreases ids.len() - count,
{
    if count == ids.len() {
        assert(ids.take(count) =~= ids);
    } else {
        assert(ids.take(count + 1).drop_last() =~= ids.take(count));
        lemma_tallest_take(nodes, rank, ids, bound, count + 1);
    }
}

impl TaffyLayoutEngine {
    /// How many nodes are below a node.
    pub fn count_all_children(&self, parent: LayoutId) -> (r: u32)
        requires
            self.wf(),
            self.nodes().contains_key(parent.0),
            descendants(self.nodes(), self.rank@, parent.0) <= u32::MAX,
        ensures
            r == descendants(self.nodes(), self.rank@, parent.0),
        decreases self.rank@[parent.0],
    {
        let children = tree_children(&self.taffy, parent.0);
        let ghost bound = self.rank@[parent.0];
        let mut count: u32 = 0;
        let mut i: usize = 0;
        assert(children@.take(0) =~= Seq::<u64>::empty());
        while i < children.len()
            invariant
                self.wf(),
                self.nodes().contains_key(parent.0),
                children@ == self.nodes()[parent.0].children,
                bound == self.rank@[parent.0],
                weight(self.nodes(), self.rank@, children@, bound) <= u32::MAX,
                i <= children@.len(),
                count == weight(self.nodes(), self.rank@, children@.take(i as int), bound),
            decreases children@.len() - i,
        {
            let child = children[i];
            proof {
                assert(placed(self.nodes(), self.rank@, parent.0));
                assert(children@[i as int] == child);
                assert(children@.take(i + 1).drop_last() =~= children@.take(i as int));
                lemma_weight_take(self.nodes(), self.rank@, children@, bound, i + 1);
            }
            count = count + 1;
            count = count + self.count_all_children(LayoutId(child));
            i = i + 1;
        }
        assert(children@.take(i as int) =~= children@);
        count
    }

    /// The depth of the deepest node below a node, which is itself at the given depth.
    pub fn max_depth(&self, depth: u32, parent: LayoutId) -> (r: u32)
        requires
            self.wf(),
            self.nodes().contains_key(parent.0),
            depth + height(self.nodes(), self.rank@, parent.0) <= u32::MAX,
        ensures
            r == depth + height(self.nodes(), self.rank@, parent.0),
        decreases self.rank@[parent.0],
    {
        let children = tree_children(&self.taffy, parent.0);
        let ghost bound = self.rank@[parent.0];
        let mut max_child_depth: u32 = 0;
        let mut i: usize = 0;
        assert(children@.take(0) =~= Seq::<u64>::empty());
        while i < children.len()
            invariant
                self.wf(),
                self.nodes().contains_key(parent.0),
                children@ == self.nodes()[parent.0].children,
                bound == self.rank@[parent.0],
                tallest(self.nodes(), self.rank@, children@, bound) <= u32::MAX,
                i <= children@.len(),
                max_child_depth == tallest(
                    self.nodes(),
                    self.rank@,
                    children@.take(i as int),
                    bound,
                ),
            decreases children@.len() - i,
        {
            let child = children[i];
            proof {
                assert(placed(self.nodes(), self.rank@, parent.0));
                assert(children@[i as int] == child);
                assert(children@.take(i + 1).drop_last() =~= children@.take(i as int));
                lemma_tallest_take(self.nodes(), self.rank@, children@, bound, i + 1);
            }
            let child_depth = self.max_depth(0, LayoutId(child));
            if max_child_depth < child_depth {
                max_child_depth = child_depth;
            }
            i = i + 1;
        }
        assert(children@.take(i as int) =~= children@);
        depth + 1 + max_child_depth
    }

    /// The edges of a subtree.
    pub fn get_edges(&self, parent: LayoutId) -> (r: Vec<(LayoutId, LayoutId)>)
        requires
            self.wf(),
            self.nodes().contains_key(parent.0),
        ensures
            r@ == edges_below(
                self.nodes(),
                self.rank@,
                parent.0,
                self.nodes()[parent.0].children,
                self.rank@[parent.0],
            ),
        decreases self.rank@[parent.0],
    {
        let children = tree_children(&self.taffy, parent.0);
        let ghost bound = self.rank@[parent.0];
        let mut edges: Vec<(LayoutId, LayoutId)> = Vec::new();
        let mut i: usize = 0;
        assert(children@.take(0) =~= Seq::<u64>::empty());
        while i < children.len()
            invariant
                self.wf(),
                self.nodes().contains_key(parent.0),
                children@ == self.nodes()[parent.0].children,
                bound == self.rank@[parent.0],
                i <= children@.len(),
                edges@ == edges_below(
                    self.nodes(),
                    self.rank@,
                    parent.0,
                    children@.take(i as int),
                    bound,
                ),
            decreases children@.len() - i,
        {
            let child = children[i];
            proof {
                assert(placed(self.nodes(), self.rank@, parent.0));
                assert(children@[i as int] == child);
                assert(children@.take(i + 1).drop_last() =~= children@.take(i as int));
            }
            edges.push((parent, LayoutId(child)));
            let mut below = self.get_edges(LayoutId(child));
            edges.append(&mut below);
            i = i + 1;
        }
        assert(children@.take(i as int) =~= children@);
        edges
    }

    /// The nodes of a subtree, in the order in which a walk finds them.
    pub fn walk(&self, id: u64) -> (r: Vec<u64>)
        requires
            self.wf(),
            self.nodes().contains_key(id),
        ensures
            r@ == subtree(self.nodes(), self.rank@, id),
    {
        let ghost nodes = self.nodes();
        let ghost rank = self.rank@;
        let ghost bound = rank[id] + 1;
        let mut found: Vec<u64> = Vec::new();
        let mut stack: Vec<u64> = Vec::new();
        stack.push(id);
        proof {
            assert(stack@ =~= seq![id]);
            assert(stack@.drop_last() =~= Seq::<u64>::empty());
            lemma_visit(nodes, rank, stack@, bound);
        }
        let ghost mut left = weight(nodes, rank, stack@, bound);
        while stack.len() > 0
            invariant
                self.wf(),
                nodes == self.nodes(),
                rank == self.rank@,
                bound == rank[id] + 1,
                waits(nodes, rank, stack@, bound),
                left == weight(nodes, rank, stack@, bound),
                found@ + visited(nodes, stack@, left) == subtree(nodes, rank, id),
            decreases left,
        {
            let ghost waiting = stack@;
            proof {
                lemma_visit(nodes, rank, waiting, bound);
            }
            let node = stack.pop().unwrap();
            let ghost seen = found@;
            found.push(node);
            let mut children = tree_children(&self.taffy, node);
            stack.append(&mut children);
            proof {
                assert(stack@ =~= waiting.drop_last() + nodes[node].children);
                left = (left - 1) as nat;
                assert(found@ + visited(nodes, stack@, left) =~= seen + visited(
                    nodes,
                    waiting,
                    left + 1,
                ));
            }
        }
        assert(found@ =~= found@ + visited(nodes, stack@, left));
        found
    }
}

/// Nodes that wait in a walk are in the tree and below the bound.
pub open spec fn waits(
    nodes: Map<u64, TreeNode>,
    rank: Map<u64, nat>,
    waiting: Seq<u64>,
    bound: nat,
) -> bool {
    forall|i: int|
        0 <= i < waiting.len() ==> nodes.contains_key(#[trigger] waiting[i]) && rank[waiting[i]]
            < bound
}

/// A step of a walk takes one off what is left to visit.
proof fn lemma_visit(
    nodes: Map<u64, TreeNode>,
    rank: Map<u64, nat>,
    waiting: Seq<u64>,
    bound: nat,
)
    requires
        forest(nodes, rank),
        waits(nodes, rank, waiting, bound),
        waiting.len() > 0,
    ensures
        ({
            let next = waiting.drop_last() + nodes[waiting.last()].children;
            &&& waits(nodes, rank, next, bound)
            &&& weight(nodes, rank, waiting, bound) == 1 + weight(nodes, rank, next, bound)
        }),
        weight(nodes, rank, waiting, bound) == weight(nodes, rank, waiting.drop_last(), bound) + 1
            + descendants(nodes, rank, waiting.last()),
{
    let node = waiting.last();
    let children = nodes[node].children;
    let next = waiting.drop_last() + children;
    assert(waiting[waiting.len() - 1] == node);
    assert(placed(nodes, rank, node));
    assert forall|i: int| 0 <= i < children.len() implies rank[#[trigger] children[i]] < rank[node]
        && rank[children[i]] < bound by {
        assert(nodes.contains_key(nodes[node].children[i]));
    }
    lemma_weight_bound(nodes, rank, children, rank[node], bound);
    lemma_weight_add(nodes, rank, waiting.drop_last(), children, bound);
    assert forall|i: int| 0 <= i < next.len() implies nodes.contains_key(#[trigger] next[i])
        && rank[next[i]] < bound by {
        if i < waiting.len() - 1 {
            assert(next[i] == waiting[i]);
        } else {
            assert(next[i] == children[i - (waiting.len() - 1)]);
        }
    }
}

/// What a walk finds: the nodes that wait, and with a node its children, and nothing else.
proof fn lemma_visited(
    nodes: Map<u64, TreeNode>,
    rank: Map<u64, nat>,
    waiting: Seq<u64>,
    bound: nat,
)
    requires
        forest(nodes, rank),
        waits(nodes, rank, waiting, bound),
    ensures
        ({
            let found = visited(nodes, waiting, weight(nodes, rank, waiting, bound));
            &&& forall|i: int| 0 <= i < waiting.len() ==> found.contains(#[trigger] waiting[i])
            &&& forall|i: int|
                0 <= i < found.len() ==> nodes.contains_key(#[trigger] found[i]) && (
                waiting.contains(found[i]) || (nodes[found[i]].parent is Some && found.contains(
                    nodes[found[i]].parent->0,
                )))
            &&& forall|i: int, j: int|
                #![trigger nodes[found[i]].children[j]]
                0 <= i < found.len() && 0 <= j < nodes[found[i]].children.len()
                    ==> found.contains(nodes[found[i]].children[j])
        }),
    decreases weight(nodes, rank, waiting, bound),
{
    let found = visited(nodes, waiting, weight(nodes, rank, waiting, bound));
    if waiting.len() > 0 {
        lemma_visit(nodes, rank, waiting, bound);
        let node = waiting.last();
        let rest = waiting.drop_last();
        let children = nodes[node].children;
        let next = rest + children;
        lemma_visited(nodes, rank, next, bound);
        let later = visited(nodes, next, weight(nodes, rank, next, bound));
        assert(found == seq![node] + later);
        assert(found[0] == node);
        assert(waiting[waiting.len() - 1] == node);
        assert(placed(nodes, rank, node));
        assert forall|n: u64| later.contains(n) implies found.contains(n) by {
            let k = choose|k: int| 0 <= k < later.len() && later[k] == n;
            assert(found[k + 1] == n);
        }
        assert forall|i: int| 0 <= i < waiting.len() implies found.contains(
            #[trigger] waiting[i],
        ) by {
            if i < rest.len() {
                assert(next[i] == waiting[i]);
                assert(later.contains(next[i]));
            }
        }
        assert forall|i: int| 0 <= i < found.len() implies nodes.contains_key(#[trigger] found[i])
            && (waiting.contains(found[i]) || (nodes[found[i]].parent is Some && found.contains(
            nodes[found[i]].parent->0,
        ))) by {
            if i > 0 {
                let n = later[i - 1];
                assert(found[i] == n);
                assert(nodes.contains_key(later[i - 1]));
                if next.contains(n) {
                    let k = choose|k: int| 0 <= k < next.len() && next[k] == n;
                    if k < rest.len() {
                        assert(waiting[k] == n);
                    } else {
                        assert(children[k - rest.len()] == n);
                        assert(nodes[nodes[node].children[k - rest.len()]].parent == Some(node));
                        assert(found.contains(node));
                    }
                }
            }
        }
        assert forall|i: int, j: int|
            #![trigger nodes[found[i]].children[j]]
            0 <= i < found.len() && 0 <= j < nodes[found[i]].children.len() implies found.contains(
            nodes[found[i]].children[j],
        ) by {
            if i == 0 {
                assert(next[rest.len() + j] == children[j]);
                assert(later.contains(next[rest.len() + j]));
            } else {
                assert(found[i] == later[i - 1]);
                assert(later.contains(nodes[later[i - 1]].children[j]));
            }
        }
    }
}

/// A subtree holds its root, and with a node all its children. It holds nothing else: a node of it
/// that is not the root is the child of a node of it.
pub proof fn law_subtree_is_root_and_all_below(
    nodes: Map<u64, TreeNode>,
    rank: Map<u64, nat>,
    id: u64,
)
    requires
        forest(nodes, rank),
        nodes.contains_key(id),
    ensures
        subtree(nodes, rank, id).contains(id),
        forall|node: u64, j: int|
            #![trigger subtree(nodes, rank, id).contains(node), nodes[node].children[j]]
            subtree(nodes, rank, id).contains(node) && 0 <= j < nodes[node].children.len()
                ==> subtree(nodes, rank, id).contains(nodes[node].children[j]),
        forall|node: u64| #[trigger]
            subtree(nodes, rank, id).contains(node) && node != id ==> nodes[node].parent is Some
                && subtree(nodes, rank, id).contains(nodes[node].parent->0),
{
    let bound = rank[id] + 1;
    let waiting = seq![id];
    let found = subtree(nodes, rank, id);
    assert(waiting.drop_last() =~= Seq::<u64>::empty());
    lemma_visit(nodes, rank, waiting, bound);
    lemma_visited(nodes, rank, waiting, bound);
    assert(waiting[0] == id);
    assert forall|node: u64, j: int|
        #![trigger subtree(nodes, rank, id).contains(node), nodes[node].children[j]]
        subtree(nodes, rank, id).contains(node) && 0 <= j
            < nodes[node].children.len() implies subtree(nodes, rank, id).contains(
        nodes[node].children[j],
    ) by {
        let k = choose|k: int| 0 <= k < found.len() && found[k] == node;
        assert(found.contains(nodes[found[k]].children[j]));
    }
    assert forall|node: u64| #[trigger]
        subtree(nodes, rank, id).contains(node) && node != id implies nodes[node].parent is Some
        && subtree(nodes, rank, id).contains(nodes[node].parent->0) by {
        let k = choose|k: int| 0 <= k < found.len() && found[k] == node;
        assert(!waiting.contains(found[k]));
    }
}

// ---- what lies below a node --------------------------------------------------------------------

/// From a node, so many steps up or fewer lead to another.
pub open spec fn leads_up(nodes: Map<u64, TreeNode>, node: u64, top: u64, steps: nat) -> bool
    decreases steps,
{
    node == top || (steps > 0 && nodes[node].parent is Some && leads_up(
        nodes,
        nodes[node].parent->0,
        top,
        (steps - 1) as nat,
    ))
}

/// A node is another one or lies below it: going up from it leads there.
pub open spec fn is_in(nodes: Map<u64, TreeNode>, node: u64, top: u64) -> bool {
    exists|steps: nat| leads_up(nodes, node, top, steps)
}

/// What lies below a child lies below the node.
proof fn lemma_below_child(
    nodes: Map<u64, TreeNode>,
    node: u64,
    child: u64,
    top: u64,
    steps: nat,
)
    requires
        leads_up(nodes, node, child, steps),
        nodes[child].parent == Some(top),
    ensures
        leads_up(nodes, node, top, steps + 1),
    decreases steps,
{
    if node == child {
        assert(leads_up(nodes, top, top, steps));
    } else {
        lemma_below_child(nodes, nodes[node].parent->0, child, top, (steps - 1) as nat);
    }
}

/// What lies below a node, and is not the node, lies below one of its children.
proof fn lemma_below_some_child(
    nodes: Map<u64, TreeNode>,
    rank: Map<u64, nat>,
    node: u64,
    top: u64,
    steps: nat,
)
    requires
        forest(nodes, rank),
        nodes.contains_key(node),
        nodes.contains_key(top),
        leads_up(nodes, node, top, steps),
        node != top,
    ensures
        exists|i: int|
            0 <= i < nodes[top].children.len() && is_in(
                nodes,
                node,
                #[trigger] nodes[top].children[i],
            ),
    decreases steps,
{
    assert(placed(nodes, rank, node));
    let parent = nodes[node].parent->0;
    if parent == top {
        let list = nodes[top].children;
        let i = choose|i: int| 0 <= i < list.len() && list[i] == node;
        assert(leads_up(nodes, node, nodes[top].children[i], 0));
    } else {
        lemma_below_some_child(nodes, rank, parent, top, (steps - 1) as nat);
        let i = choose|i: int|
            0 <= i < nodes[top].children.len() && is_in(
                nodes,
                parent,
                #[trigger] nodes[top].children[i],
            );
        let child = nodes[top].children[i];
        let more = choose|more: nat| leads_up(nodes, parent, child, more);
        assert(leads_up(nodes, node, child, more + 1));
        assert(is_in(nodes, node, nodes[top].children[i]));
    }
}

/// A node and what is below it are the node, and its children with what is below them.
proof fn lemma_is_in(nodes: Map<u64, TreeNode>, rank: Map<u64, nat>, node: u64, top: u64)
    requires
        forest(nodes, rank),
        nodes.contains_key(node),
        nodes.contains_key(top),
    ensures
        is_in(nodes, node, top) <==> node == top || exists|i: int|
            0 <= i < nodes[top].children.len() && is_in(
                nodes,
                node,
                #[trigger] nodes[top].children[i],
            ),
{
    assert(placed(nodes, rank, top));
    if is_in(nodes, node, top) && node != top {
        let steps = choose|steps: nat| leads_up(nodes, node, top, steps);
        lemma_below_some_child(nodes, rank, node, top, steps);
    }
    if node == top {
        assert(leads_up(nodes, node, top, 0));
    }
    if exists|i: int|
        0 <= i < nodes[top].children.len() && is_in(nodes, node, #[trigger] nodes[top].children[i]) {
        let i = choose|i: int|
            0 <= i < nodes[top].children.len() && is_in(
                nodes,
                node,
                #[trigger] nodes[top].children[i],
            );
        let child = nodes[top].children[i];
        let steps = choose|steps: nat| leads_up(nodes, node, child, steps);
        lemma_below_child(nodes, node, child, top, steps);
    }
}

/// A walk finds what lies below the nodes that wait, and as many nodes as there are.
proof fn lemma_walk_finds(
    nodes: Map<u64, TreeNode>,
    rank: Map<u64, nat>,
    waiting: Seq<u64>,
    bound: nat,
    node: u64,
)
    requires
        forest(nodes, rank),
        waits(nodes, rank, waiting, bound),
        nodes.contains_key(node),
    ensures
        visited(nodes, waiting, weight(nodes, rank, waiting, bound)).contains(node) <==> exists|
            i: int,
        | 0 <= i < waiting.len() && is_in(nodes, node, #[trigger] waiting[i]),
        visited(nodes, waiting, weight(nodes, rank, waiting, bound)).len() == weight(
            nodes,
            rank,
            waiting,
            bound,
        ),
    decreases weight(nodes, rank, waiting, bound),
{
    let found = visited(nodes, waiting, weight(nodes, rank, waiting, bound));
    if waiting.len() > 0 {
        lemma_visit(nodes, rank, waiting, bound);
        let last = waiting.last();
        let rest = waiting.drop_last();
        let children = nodes[last].children;
        let next = rest + children;
        lemma_walk_finds(nodes, rank, next, bound, node);
        let later = visited(nodes, next, weight(nodes, rank, next, bound));
        assert(found == seq![last] + later);
        assert(waiting[waiting.len() - 1] == last);
        lemma_is_in(nodes, rank, node, last);
        if found.contains(node) {
            let k = choose|k: int| 0 <= k < found.len() && found[k] == node;
            if k == 0 {
                assert(is_in(nodes, node, waiting[waiting.len() - 1]));
            } else {
                assert(later[k - 1] == node);
                let i = choose|i: int| 0 <= i < next.len() && is_in(nodes, node, #[trigger] next[i]);
                if i < rest.len() {
                    assert(waiting[i] == next[i]);
                } else {
                    assert(next[i] == children[i - rest.len()]);
                    assert(is_in(nodes, node, waiting[waiting.len() - 1]));
                }
            }
        }
        if exists|i: int| 0 <= i < waiting.len() && is_in(nodes, node, #[trigger] waiting[i]) {
            let i = choose|i: int|
                0 <= i < waiting.len() && is_in(nodes, node, #[trigger] waiting[i]);
            if i < rest.len() {
                assert(next[i] == waiting[i]);
                assert(later.contains(node));
            } else if node == last {
                assert(found[0] == node);
            } else {
                let j = choose|j: int|
                    0 <= j < children.len() && is_in(nodes, node, #[trigger] children[j]);
                assert(next[rest.len() + j] == children[j]);
                assert(later.contains(node));
            }
            if later.contains(node) {
                let k = choose|k: int| 0 <= k < later.len() && later[k] == node;
                assert(found[k + 1] == node);
            }
        }
    }
}

/// A walk from a node finds the node and every node from which going up leads to it, and no other. So
/// many nodes are below a node as a walk finds besides it.
pub proof fn law_a_walk_finds_what_lies_below(
    nodes: Map<u64, TreeNode>,
    rank: Map<u64, nat>,
    id: u64,
    node: u64,
)
    requires
        forest(nodes, rank),
        nodes.contains_key(id),
        nodes.contains_key(node),
    ensures
        subtree(nodes, rank, id).contains(node) <==> is_in(nodes, node, id),
        subtree(nodes, rank, id).len() == 1 + descendants(nodes, rank, id),
{
    let bound = rank[id] + 1;
    let one = seq![id];
    assert(one[0] == id);
    assert(waits(nodes, rank, one, bound));
    lemma_visit(nodes, rank, one, bound);
    assert(weight(nodes, rank, one, bound) == 1 + descendants(nodes, rank, id)) by {
        assert(one.drop_last() =~= Seq::<u64>::empty());
        assert(one.last() == id);
    }
    lemma_walk_finds(nodes, rank, one, bound, node);
    if is_in(nodes, node, id) {
        assert(is_in(nodes, node, one[0]));
    }
    if exists|i: int| 0 <= i < one.len() && is_in(nodes, node, #[trigger] one[i]) {
        let i = choose|i: int| 0 <= i < one.len() && is_in(nodes, node, #[trigger] one[i]);
        assert(one[i] == id);
    }
}

/// A node is one level higher than the highest of its children, and a leaf has one level.
pub proof fn law_a_node_is_above_its_children(
    nodes: Map<u64, TreeNode>,
    rank: Map<u64, nat>,
    id: u64,
)
    requires
        forest(nodes, rank),
        nodes.contains_key(id),
    ensures
        nodes[id].children.len() == 0 ==> height(nodes, rank, id) == 1,
        forall|i: int|
            0 <= i < nodes[id].children.len() ==> height(
                nodes,
                rank,
                #[trigger] nodes[id].children[i],
            ) < height(nodes, rank, id),
        nodes[id].children.len() > 0 ==> exists|i: int|
            0 <= i < nodes[id].children.len() && height(
                nodes,
                rank,
                #[trigger] nodes[id].children[i],
            ) + 1 == height(nodes, rank, id),
{
    assert(placed(nodes, rank, id));
    let children = nodes[id].children;
    assert forall|i: int| 0 <= i < children.len() implies rank[#[trigger] children[i]]
        < rank[id] by {
        assert(nodes.contains_key(nodes[id].children[i]));
    }
    lemma_tallest_is_reached(nodes, rank, children, rank[id]);
}

proof fn lemma_tallest_is_reached(
    nodes: Map<u64, TreeNode>,
    rank: Map<u64, nat>,
    ids: Seq<u64>,
    bound: nat,
)
    requires
        forall|i: int| 0 <= i < ids.len() ==> rank[#[trigger] ids[i]] < bound,
    ensures
        forall|i: int|
            0 <= i < ids.len() ==> height(nodes, rank, #[trigger] ids[i]) <= tallest(
                nodes,
                rank,
                ids,
                bound,
            ),
        ids.len() > 0 ==> exists|i: int|
            0 <= i < ids.len() && height(nodes, rank, #[trigger] ids[i]) == tallest(
                nodes,
                rank,
                ids,
                bound,
            ),
    decreases ids.len(),
{
    if ids.len() > 0 {
        let shorter = ids.drop_last();
        assert forall|i: int| 0 <= i < shorter.len() implies rank[#[trigger] shorter[i]]
            < bound by {
            assert(shorter[i] == ids[i]);
        }
        lemma_tallest_is_reached(nodes, rank, shorter, bound);
        assert(ids[ids.len() - 1] == ids.last());
        let whole = tallest(nodes, rank, ids, bound);
        let rest = tallest(nodes, rank, shorter, bound);
        assert forall|i: int| 0 <= i < ids.len() implies height(nodes, rank, #[trigger] ids[i])
            <= whole by {
            if i < shorter.len() {
                assert(shorter[i] == ids[i]);
            }
        }
        if height(nodes, rank, ids.last()) == whole {
            assert(height(nodes, rank, ids[ids.len() - 1]) == whole);
        } else {
            let i = choose|i: int|
                0 <= i < shorter.len() && height(nodes, rank, #[trigger] shorter[i]) == rest;
            assert(height(nodes, rank, ids[i]) == whole);
        }
    }
}

/// The edges of a subtree are those from each node that lies in it to each of its children, and no
/// others; there is one for every node below the root.
pub proof fn law_edges_lead_to_children(
    nodes: Map<u64, TreeNode>,
    rank: Map<u64, nat>,
    id: u64,
    parent: u64,
    child: u64,
)
    requires
        forest(nodes, rank),
        nodes.contains_key(id),
        nodes.contains_key(parent),
    ensures
        edges_below(nodes, rank, id, nodes[id].children, rank[id]).contains(
            (LayoutId(parent), LayoutId(child)),
        ) <==> is_in(nodes, parent, id) && nodes[parent].children.contains(child),
        edges_below(nodes, rank, id, nodes[id].children, rank[id]).len() == descendants(
            nodes,
            rank,
            id,
        ),
{
    assert(placed(nodes, rank, id));
    let children = nodes[id].children;
    assert forall|i: int| 0 <= i < children.len() implies nodes.contains_key(
        #[trigger] children[i],
    ) && rank[children[i]] < rank[id] by {
        assert(nodes.contains_key(nodes[id].children[i]));
    }
    lemma_edges(nodes, rank, id, children, rank[id], parent, child);
    lemma_is_in(nodes, rank, parent, id);
    if is_in(nodes, parent, id) && parent != id {
        let i = choose|i: int|
            0 <= i < nodes[id].children.len() && is_in(
                nodes,
                parent,
                #[trigger] nodes[id].children[i],
            );
        assert(is_in(nodes, parent, children[i]));
    }
    if exists|i: int| 0 <= i < children.len() && is_in(nodes, parent, #[trigger] children[i]) {
        let i = choose|i: int|
            0 <= i < children.len() && is_in(nodes, parent, #[trigger] children[i]);
        assert(is_in(nodes, parent, nodes[id].children[i]));
    }
}

proof fn lemma_edges(
    nodes: Map<u64, TreeNode>,
    rank: Map<u64, nat>,
    top: u64,
    ids: Seq<u64>,
    bound: nat,
    parent: u64,
    child: u64,
)
    requires
        forest(nodes, rank),
        nodes.contains_key(parent),
        forall|i: int|
            0 <= i < ids.len() ==> nodes.contains_key(#[trigger] ids[i]) && rank[ids[i]] < bound,
    ensures
        edges_below(nodes, rank, top, ids, bound).contains((LayoutId(parent), LayoutId(child)))
            <==> (parent == top && ids.contains(child)) || (nodes[parent].children.contains(child)
            && exists|i: int| 0 <= i < ids.len() && is_in(nodes, parent, #[trigger] ids[i])),
        edges_below(nodes, rank, top, ids, bound).len() == weight(nodes, rank, ids, bound),
    decreases bound, ids.len(),
{
    let edge = (LayoutId(parent), LayoutId(child));
    let all = edges_below(nodes, rank, top, ids, bound);
    if ids.len() > 0 {
        let shorter = ids.drop_last();
        let last = ids.last();
        assert(ids[ids.len() - 1] == last);
        assert forall|i: int| 0 <= i < shorter.len() implies nodes.contains_key(
            #[trigger] shorter[i],
        ) && rank[shorter[i]] < bound by {
            assert(shorter[i] == ids[i]);
        }
        lemma_edges(nodes, rank, top, shorter, bound, parent, child);
        assert(placed(nodes, rank, last));
        let below = nodes[last].children;
        assert forall|i: int| 0 <= i < below.len() implies nodes.contains_key(#[trigger] below[i])
            && rank[below[i]] < rank[last] by {
            assert(nodes.contains_key(nodes[last].children[i]));
        }
        lemma_edges(nodes, rank, last, below, rank[last], parent, child);
        lemma_is_in(nodes, rank, parent, last);
        let first = edges_below(nodes, rank, top, shorter, bound);
        let third = edges_below(nodes, rank, last, below, rank[last]);
        let own = (LayoutId(top), LayoutId(last));
        assert(all == first.push(own) + third);
        assert(all.contains(edge) <==> first.contains(edge) || edge == own || third.contains(
            edge,
        )) by {
            if first.contains(edge) {
                let k = choose|k: int| 0 <= k < first.len() && first[k] == edge;
                assert(all[k] == edge);
            }
            assert(all[first.len() as int] == own);
            if third.contains(edge) {
                let k = choose|k: int| 0 <= k < third.len() && third[k] == edge;
                assert(all[first.len() + 1 + k] == edge);
            }
            if all.contains(edge) {
                let k = choose|k: int| 0 <= k < all.len() && all[k] == edge;
                if k < first.len() {
                    assert(first[k] == edge);
                } else if k > first.len() {
                    assert(third[k - first.len() - 1] == edge);
                }
            }
        }
        assert(ids.contains(child) <==> shorter.contains(child) || child == last) by {
            if shorter.contains(child) {
                let k = choose|k: int| 0 <= k < shorter.len() && shorter[k] == child;
                assert(ids[k] == child);
            }
            if ids.contains(child) && child != last {
                let k = choose|k: int| 0 <= k < ids.len() && ids[k] == child;
                assert(shorter[k] == child);
            }
        }
        let among = exists|i: int| 0 <= i < ids.len() && is_in(nodes, parent, #[trigger] ids[i]);
        let before = exists|i: int|
            0 <= i < shorter.len() && is_in(nodes, parent, #[trigger] shorter[i]);
        let deeper = exists|i: int|
            0 <= i < below.len() && is_in(nodes, parent, #[trigger] below[i]);
        assert(deeper == exists|i: int|
            0 <= i < nodes[last].children.len() && is_in(
                nodes,
                parent,
                #[trigger] nodes[last].children[i],
            ));
        assert(is_in(nodes, parent, last) <==> parent == last || deeper);
        assert(among <==> before || is_in(nodes, parent, last)) by {
            if before {
                let i = choose|i: int|
                    0 <= i < shorter.len() && is_in(nodes, parent, #[trigger] shorter[i]);
                assert(is_in(nodes, parent, ids[i]));
            }
            if is_in(nodes, parent, last) {
                assert(is_in(nodes, parent, ids[ids.len() - 1]));
            }
            if among {
                let i = choose|i: int|
                    0 <= i < ids.len() && is_in(nodes, parent, #[trigger] ids[i]);
                if i < shorter.len() {
                    assert(is_in(nodes, parent, shorter[i]));
                }
            }
        }
    }
}

} // verus!
