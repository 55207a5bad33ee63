//! Trees of nodes: what makes the nodes a forest, and the walk over a part of it.

use crate::layout::tree::{
    adopted, detached, new_node, parents_present, removed, without, NodeContext, TreeNode,
};
use vstd::prelude::*;

verus! {

/// A node is where its children and its parent say that it is. Children are of lower rank than
/// their parent, so no node is below itself.
pub open spec fn placed(nodes: Map<u64, TreeNode>, rank: Map<u64, nat>, node: u64) -> bool {
    &&& nodes[node].children.no_duplicates()
    &&& forall|i: int|
        0 <= i < nodes[node].children.len() ==> {
            &&& nodes.contains_key(#[trigger] nodes[node].children[i])
            &&& nodes[nodes[node].children[i]].parent == Some(node)
            &&& rank[nodes[node].children[i]] < rank[node]
        }
    &&& nodes[node].parent matches Some(parent) ==> {
        &&& nodes.contains_key(parent)
        &&& nodes[parent].children.contains(node)
    }
}

pub open spec fn forest(nodes: Map<u64, TreeNode>, rank: Map<u64, nat>) -> bool {
    forall|node: u64| #[trigger] nodes.contains_key(node) ==> placed(nodes, rank, node)
}

pub proof fn lemma_parents_present(nodes: Map<u64, TreeNode>, rank: Map<u64, nat>)
    requires
        forest(nodes, rank),
    ensures
        parents_present(nodes),
{
    assert forall|node: u64| #[trigger] nodes.contains_key(node) implies (
    nodes[node].parent matches Some(parent) ==> nodes.contains_key(parent)) by {
        assert(placed(nodes, rank, node));
    }
}

/// A rank above that of all the given nodes.
pub open spec fn above(rank: Map<u64, nat>, ids: Seq<u64>) -> nat
    decreases ids.len(),
{
    if ids.len() == 0 {
        0
    } else {
        let rest = above(rank, ids.drop_last());
        if rank[ids.last()] < rest {
            rest
        } else {
            rank[ids.last()] + 1
        }
    }
}

pub proof fn lemma_above(rank: Map<u64, nat>, ids: Seq<u64>)
    ensures
        forall|i: int| 0 <= i < ids.len() ==> rank[#[trigger] ids[i]] < above(rank, ids),
    decreases ids.len(),
{
    if ids.len() > 0 {
        lemma_above(rank, ids.drop_last());
        assert forall|i: int| 0 <= i < ids.len() implies rank[#[trigger] ids[i]] < above(
            rank,
            ids,
        ) by {
            if i < ids.len() - 1 {
                assert(ids.drop_last()[i] == ids[i]);
            }
        }
    }
}

pub proof fn lemma_new_leaf(
    nodes: Map<u64, TreeNode>,
    rank: Map<u64, nat>,
    id: u64,
    context: Option<NodeContext>,
)
    requires
        forest(nodes, rank),
        !nodes.contains_key(id),
    ensures
        forest(nodes.insert(id, new_node(Seq::empty(), context)), rank.insert(id, 0)),
{
    let after = nodes.insert(id, new_node(Seq::empty(), context));
    let ranks = rank.insert(id, 0nat);
    assert forall|node: u64| #[trigger] after.contains_key(node) implies placed(
        after,
        ranks,
        node,
    ) by {
        if node != id {
            assert(placed(nodes, rank, node));
            assert forall|i: int| 0 <= i < after[node].children.len() implies {
                &&& after.contains_key(#[trigger] after[node].children[i])
                &&& after[after[node].children[i]].parent == Some(node)
                &&& ranks[after[node].children[i]] < ranks[node]
            } by {
                assert(nodes.contains_key(nodes[node].children[i]));
            }
        }
    }
}

pub proof fn lemma_replaced_context(
    nodes: Map<u64, TreeNode>,
    rank: Map<u64, nat>,
    id: u64,
    context: NodeContext,
)
    requires
        forest(nodes, rank),
        nodes.contains_key(id),
    ensures
        forest(nodes.insert(id, TreeNode { context: Some(context), ..nodes[id] }), rank),
{
    let after = nodes.insert(id, TreeNode { context: Some(context), ..nodes[id] });
    assert forall|node: u64| #[trigger] after.contains_key(node) implies placed(
        after,
        rank,
        node,
    ) by {
        assert(placed(nodes, rank, node));
        assert forall|i: int| 0 <= i < after[node].children.len() implies {
            &&& after.contains_key(#[trigger] after[node].children[i])
            &&& after[after[node].children[i]].parent == Some(node)
            &&& rank[after[node].children[i]] < rank[node]
        } by {
            assert(nodes.contains_key(nodes[node].children[i]));
        }
    }
}

pub proof fn lemma_detached(
    nodes: Map<u64, TreeNode>,
    rank: Map<u64, nat>,
    parent: u64,
    index: int,
)
    requires
        forest(nodes, rank),
        nodes.contains_key(parent),
        0 <= index < nodes[parent].children.len(),
    ensures
        forest(detached(nodes, parent, index), rank),
        detached(nodes, parent, index).dom() == nodes.dom(),
        detached(nodes, parent, index)[nodes[parent].children[index]].parent is None,
{
    let child = nodes[parent].children[index];
    let after = detached(nodes, parent, index);
    assert(placed(nodes, rank, parent));
    assert(nodes.contains_key(nodes[parent].children[index]));
    assert(child != parent);
    assert(after.dom() =~= nodes.dom());
    assert forall|node: u64| #[trigger] after.contains_key(node) implies placed(
        after,
        rank,
        node,
    ) by {
        assert(placed(nodes, rank, node));
        let before = nodes[node].children;
        let list = after[node].children;
        assert forall|i: int| 0 <= i < list.len() implies {
            &&& after.contains_key(#[trigger] list[i])
            &&& after[list[i]].parent == Some(node)
            &&& rank[list[i]] < rank[node]
        } by {
            let j = if node == parent && i >= index {
                i + 1
            } else {
                i
            };
            assert(list[i] == before[j]);
            assert(nodes.contains_key(before[j]));
            if list[i] == child {
                assert(nodes[child].parent == Some(node));
                assert(node == parent);
                assert(before[j] == before[index]);
                assert(false);
            }
        }
        if let Some(up) = after[node].parent {
            assert(node != child);
            assert(nodes[up].children.contains(node));
            let list_up = nodes[up].children;
            let k = choose|k: int| 0 <= k < list_up.len() && list_up[k] == node;
            if up == parent {
                let m = if k > index {
                    k - 1
                } else {
                    k
                };
                assert(after[up].children[m] == node);
            } else {
                assert(after[up].children[k] == node);
            }
        }
        assert(list.no_duplicates()) by {
            if node == parent {
                assert forall|i: int, j: int|
                    0 <= i < list.len() && 0 <= j < list.len() && i != j implies list[i]
                    != list[j] by {
                    let a = if i >= index {
                        i + 1
                    } else {
                        i
                    };
                    let b = if j >= index {
                        j + 1
                    } else {
                        j
                    };
                    assert(list[i] == before[a] && list[j] == before[b]);
                }
            }
        }
    }
}

pub proof fn lemma_adopted(
    nodes: Map<u64, TreeNode>,
    rank: Map<u64, nat>,
    id: u64,
    children: Seq<u64>,
)
    requires
        forest(nodes, rank),
        !nodes.contains_key(id),
        children.no_duplicates(),
        forall|i: int|
            0 <= i < children.len() ==> nodes.contains_key(#[trigger] children[i])
                && nodes[children[i]].parent is None,
    ensures
        forest(adopted(nodes, id, children), rank.insert(id, above(rank, children))),
{
    let after = adopted(nodes, id, children);
    let ranks = rank.insert(id, above(rank, children));
    lemma_above(rank, children);
    assert forall|node: u64| #[trigger] after.contains_key(node) implies placed(
        after,
        ranks,
        node,
    ) by {
        if node == id {
            assert forall|i: int| 0 <= i < after[id].children.len() implies {
                &&& after.contains_key(#[trigger] after[id].children[i])
                &&& after[after[id].children[i]].parent == Some(id)
                &&& ranks[after[id].children[i]] < ranks[id]
            } by {
                assert(nodes.contains_key(children[i]));
                assert(children.contains(children[i]));
            }
        } else {
            assert(nodes.contains_key(node));
            assert(placed(nodes, rank, node));
            assert forall|i: int| 0 <= i < after[node].children.len() implies {
                &&& after.contains_key(#[trigger] after[node].children[i])
                &&& after[after[node].children[i]].parent == Some(node)
                &&& ranks[after[node].children[i]] < ranks[node]
            } by {
                let child = nodes[node].children[i];
                assert(nodes.contains_key(child));
                if children.contains(child) {
                    let k = choose|k: int| 0 <= k < children.len() && children[k] == child;
                    assert(nodes[children[k]].parent is None);
                }
            }
            if let Some(up) = after[node].parent {
                if children.contains(node) {
                    assert(after[id].children.contains(node));
                } else {
                    assert(nodes[up].children.contains(node));
                }
            }
        }
    }
}

proof fn lemma_without(list: Seq<u64>, id: u64)
    ensures
        forall|i: int|
            0 <= i < without(list, id).len() ==> list.contains(
                #[trigger] without(list, id)[i],
            ) && without(list, id)[i] != id,
        forall|c: u64| #[trigger]
            list.contains(c) && c != id ==> without(list, id).contains(c),
        list.no_duplicates() ==> without(list, id).no_duplicates(),
    decreases list.len(),
{
    reveal(Seq::filter);
    let kept = without(list, id);
    if list.len() > 0 {
        let shorter = list.drop_last();
        let last = list.last();
        lemma_without(shorter, id);
        let before = without(shorter, id);
        assert(kept == if last != id {
            before.push(last)
        } else {
            before
        });
        assert forall|i: int| 0 <= i < kept.len() implies list.contains(#[trigger] kept[i])
            && kept[i] != id by {
            if i < before.len() {
                assert(kept[i] == before[i]);
                let j = choose|j: int| 0 <= j < shorter.len() && shorter[j] == before[i];
                assert(list[j] == kept[i]);
            } else {
                assert(list[list.len() - 1] == kept[i]);
            }
        }
        assert forall|c: u64| #[trigger] list.contains(c) && c != id implies kept.contains(c) by {
            let j = choose|j: int| 0 <= j < list.len() && list[j] == c;
            if j < shorter.len() {
                assert(shorter[j] == c);
                assert(shorter.contains(c));
                assert(before.contains(c));
                let k = choose|k: int| 0 <= k < before.len() && before[k] == c;
                assert(kept[k] == c);
            } else {
                assert(kept[kept.len() - 1] == c);
            }
        }
        if list.no_duplicates() {
            assert(shorter.no_duplicates()) by {
                assert forall|i: int, j: int|
                    0 <= i < shorter.len() && 0 <= j < shorter.len() && i != j implies shorter[i]
                    != shorter[j] by {
                    assert(list[i] != list[j]);
                }
            }
            assert forall|i: int, j: int|
                0 <= i < kept.len() && 0 <= j < kept.len() && i != j implies kept[i]
                != kept[j] by {
                if i < before.len() && j < before.len() {
                    assert(before[i] != before[j]);
                } else {
                    let k = if i < before.len() {
                        i
                    } else {
                        j
                    };
                    let m = choose|m: int| 0 <= m < shorter.len() && shorter[m] == before[k];
                    assert(shorter.contains(before[k]));
                    assert(list[m] != list[list.len() - 1]);
                }
            }
        }
    }
}

pub proof fn lemma_removed(nodes: Map<u64, TreeNode>, rank: Map<u64, nat>, id: u64)
    requires
        forest(nodes, rank),
        nodes.contains_key(id),
    ensures
        forest(removed(nodes, id), rank),
        removed(nodes, id).dom() == nodes.dom().remove(id),
{
    let after = removed(nodes, id);
    assert(after.dom() =~= nodes.dom().remove(id));
    assert(placed(nodes, rank, id));
    assert forall|node: u64| #[trigger] after.contains_key(node) implies placed(
        after,
        rank,
        node,
    ) by {
        assert(nodes.contains_key(node));
        assert(placed(nodes, rank, node));
        let before = nodes[node].children;
        let list = after[node].children;
        lemma_without(before, id);
        assert forall|i: int| 0 <= i < list.len() implies {
            &&& after.contains_key(#[trigger] list[i])
            &&& after[list[i]].parent == Some(node)
            &&& rank[list[i]] < rank[node]
        } by {
            let child = list[i];
            assert(before.contains(child));
            let j = choose|j: int| 0 <= j < before.len() && before[j] == child;
            assert(nodes.contains_key(before[j]));
            assert(nodes[child].parent == Some(node));
            if child == id {
                assert(nodes[id].parent == Some(node));
                assert(false);
            }
            if nodes[id].children.contains(child) {
                let k = choose|k: int|
                    0 <= k < nodes[id].children.len() && nodes[id].children[k] == child;
                assert(nodes[nodes[id].children[k]].parent == Some(id));
            }
        }
        if let Some(up) = after[node].parent {
            assert(nodes[up].children.contains(node));
            assert(up != id);
            lemma_without(nodes[up].children, id);
        }
    }
}

// ---- the walk over a part of a forest ----------------------------------------------------------

/// How many nodes are among the given ones and below them. Nodes of a rank that is not below the
/// bound are left out; in a forest the children of a node are all below its rank.
pub open spec fn weight(
    nodes: Map<u64, TreeNode>,
    rank: Map<u64, nat>,
    ids: Seq<u64>,
    bound: nat,
) -> nat
    decreases bound, ids.len(),
{
    if ids.len() == 0 {
        0
    } else {
        weight(nodes, rank, ids.drop_last(), bound) + if rank[ids.last()] < bound {
            1 + weight(nodes, rank, nodes[ids.last()].children, rank[ids.last()])
        } else {
            0
        }
    }
}

/// How many nodes are below a node.
pub open spec fn descendants(nodes: Map<u64, TreeNode>, rank: Map<u64, nat>, id: u64) -> nat {
    weight(nodes, rank, nodes[id].children, rank[id])
}

/// The nodes in the order of a walk: the last of those that wait is visited, and its children wait.
pub open spec fn visited(nodes: Map<u64, TreeNode>, waiting: Seq<u64>, count: nat) -> Seq<u64>
    decreases count,
{
    if count == 0 || waiting.len() == 0 {
        seq![]
    } else {
        seq![waiting.last()] + visited(
            nodes,
            waiting.drop_last() + nodes[waiting.last()].children,
            (count - 1) as nat,
        )
    }
}

/// The nodes of a subtree, in the order of a walk from its root.
pub open spec fn subtree(nodes: Map<u64, TreeNode>, rank: Map<u64, nat>, id: u64) -> Seq<u64> {
    visited(nodes, seq![id], 1 + descendants(nodes, rank, id))
}

/// The bound makes no difference as long as it is above the ranks of the nodes.
pub proof fn lemma_weight_bound(
    nodes: Map<u64, TreeNode>,
    rank: Map<u64, nat>,
    ids: Seq<u64>,
    a: nat,
    b: nat,
)
    requires
        forall|i: int| 0 <= i < ids.len() ==> rank[#[trigger] ids[i]] < a && rank[ids[i]] < b,
    ensures
        weight(nodes, rank, ids, a) == weight(nodes, rank, ids, b),
    decreases ids.len(),
{
    if ids.len() > 0 {
        let shorter = ids.drop_last();
        assert forall|i: int| 0 <= i < shorter.len() implies rank[#[trigger] shorter[i]] < a
            && rank[shorter[i]] < b by {
            assert(shorter[i] == ids[i]);
        }
        lemma_weight_bound(nodes, rank, shorter, a, b);
        assert(ids.last() == ids[ids.len() - 1]);
    }
}

pub proof fn lemma_weight_add(
    nodes: Map<u64, TreeNode>,
    rank: Map<u64, nat>,
    a: Seq<u64>,
    b: Seq<u64>,
    bound: nat,
)
    ensures
        weight(nodes, rank, a + b, bound) == weight(nodes, rank, a, bound) + weight(
            nodes,
            rank,
            b,
            bound,
        ),
    decreases b.len(),
{
    if b.len() == 0 {
        assert(a + b =~= a);
    } else {
        lemma_weight_add(nodes, rank, a, b.drop_last(), bound);
        assert((a + b).drop_last() =~= a + b.drop_last());
        assert((a + b).last() == b.last());
    }
}

} // verus!
