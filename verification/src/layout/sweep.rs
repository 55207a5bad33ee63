//! The end of a frame: what was not asked for again is removed, and the rest waits in the pool.

use crate::geometry::{Bounds, Pixels, Point, Real32};
use crate::layout::engine::TaffyLayoutEngine;
use crate::layout::forest::{forest, lemma_removed, placed};
use crate::layout::tree::{removed, tree_clear, tree_remove, without, TreeNode};
use crate::style::TaffyStyle;
use vstd::prelude::*;

verus! {

/// What is left of a list of nodes when some nodes are gone.
pub open spec fn outside(list: Seq<u64>, gone: Set<u64>) -> Seq<u64> {
    list.filter(|node: u64| !gone.contains(node))
}

/// What is left of the nodes when some are gone: no list names one that is gone, and a node whose
/// parent is gone has none.
pub open spec fn swept(nodes: Map<u64, TreeNode>, gone: Set<u64>) -> Map<u64, TreeNode> {
    nodes.remove_keys(gone).map_entries(
        |node: u64, data: TreeNode|
            TreeNode {
                children: outside(data.children, gone),
                parent: match data.parent {
                    Some(parent) => if gone.contains(parent) {
                        None
                    } else {
                        Some(parent)
                    },
                    None => None,
                },
                ..data
            },
    )
}

proof fn lemma_outside(list: Seq<u64>, gone: Set<u64>, id: u64)
    ensures
        without(outside(list, gone), id) == outside(list, gone.insert(id)),
        !list.contains(id) ==> outside(list, gone) == outside(list, gone.insert(id)),
        forall|node: u64| #[trigger]
            outside(list, gone).contains(node) <==> list.contains(node) && !gone.contains(node),
    decreases list.len(),
{
    reveal(Seq::filter);
    if list.len() > 0 {
        let shorter = list.drop_last();
        let last = list.last();
        lemma_outside(shorter, gone, id);
        let kept = outside(shorter, gone);
        assert(outside(list, gone) == if gone.contains(last) {
            kept
        } else {
            kept.push(last)
        });
        assert(kept.push(last).drop_last() =~= kept);
        assert(shorter.contains(id) ==> list.contains(id)) by {
            if shorter.contains(id) {
                let i = choose|i: int| 0 <= i < shorter.len() && shorter[i] == id;
                assert(list[i] == id);
            }
        }
        assert(list[list.len() - 1] == last);
        assert forall|node: u64| #[trigger] outside(list, gone).contains(node) <==> list.contains(
            node,
        ) && !gone.contains(node) by {
            if kept.contains(node) {
                let i = choose|i: int| 0 <= i < kept.len() && kept[i] == node;
                assert(outside(list, gone)[i] == node);
            }
            if shorter.contains(node) {
                let i = choose|i: int| 0 <= i < shorter.len() && shorter[i] == node;
                assert(list[i] == node);
            }
            if outside(list, gone).contains(node) {
                let i = choose|i: int|
                    0 <= i < outside(list, gone).len() && outside(list, gone)[i] == node;
                assert(i < kept.len() ==> kept[i] == node);
                assert(i < kept.len() ==> kept.contains(node));
            }
            if list.contains(node) && !gone.contains(node) {
                let i = choose|i: int| 0 <= i < list.len() && list[i] == node;
                if i < shorter.len() {
                    assert(shorter[i] == node);
                    assert(shorter.contains(node));
                } else {
                    assert(kept.push(last)[kept.len() as int] == node);
                }
            }
        }
    }
}

/// Removing one more node sweeps one more node.
proof fn lemma_swept_step(
    nodes: Map<u64, TreeNode>,
    rank: Map<u64, nat>,
    gone: Set<u64>,
    id: u64,
)
    requires
        forest(nodes, rank),
        nodes.contains_key(id),
        !gone.contains(id),
    ensures
        removed(swept(nodes, gone), id) == swept(nodes, gone.insert(id)),
{
    let before = swept(nodes, gone);
    let one = removed(before, id);
    let all = swept(nodes, gone.insert(id));
    assert(one.dom() =~= all.dom());
    assert(before.contains_key(id));
    assert(placed(nodes, rank, id));
    assert forall|node: u64| #[trigger] all.contains_key(node) implies one[node]
        == all[node] by {
        assert(nodes.contains_key(node));
        assert(placed(nodes, rank, node));
        lemma_outside(nodes[node].children, gone, id);
        lemma_outside(nodes[id].children, gone, id);
        if nodes[node].children.contains(id) {
            let k = choose|k: int|
                0 <= k < nodes[node].children.len() && nodes[node].children[k] == id;
            assert(nodes[nodes[node].children[k]].parent == Some(node));
            assert(before[id].parent == Some(node));
        }
        if before[id].children.contains(node) {
            let k = choose|k: int|
                0 <= k < nodes[id].children.len() && nodes[id].children[k] == node;
            assert(nodes[nodes[id].children[k]].parent == Some(id));
        }
        if nodes[node].parent == Some(id) {
            assert(nodes[id].children.contains(node));
            assert(before[id].children.contains(node));
        }
        assert(one[node].children =~= all[node].children);
    }
    assert(one =~= all);
}

proof fn lemma_nothing_swept(nodes: Map<u64, TreeNode>)
    ensures
        swept(nodes, Set::empty()) == nodes,
{
    let all = swept(nodes, Set::empty());
    assert forall|node: u64| #[trigger] nodes.contains_key(node) implies all[node]
        == nodes[node] by {
        lemma_nothing_outside(nodes[node].children);
    }
    assert(all =~= nodes);
}

proof fn lemma_nothing_outside(list: Seq<u64>)
    ensures
        outside(list, Set::empty()) == list,
    decreases list.len(),
{
    reveal(Seq::filter);
    if list.len() > 0 {
        lemma_nothing_outside(list.drop_last());
        assert(list.drop_last().push(list.last()) =~= list);
    }
}

impl TaffyLayoutEngine {
    /// The nodes of the frame before that were not requested again.
    pub open spec fn pooled(self) -> Set<u64> {
        Set::new(|node: u64| self.is_pooled(node))
    }

    pub open spec fn is_pooled(self, node: u64) -> bool {
        exists|key: u64, index: int| self.pool_has(key, index, node)
    }

    /// The node is in the pool before a place. Places are ordered by the keys and then by the index.
    spec fn is_pooled_before(self, key_count: int, count: int, node: u64) -> bool {
        exists|k: int, index: int|
            #![trigger self.pool_has(self.pool_keys@[k], index, node)]
            0 <= k < self.pool_keys@.len() && (k < key_count || (k == key_count && index < count))
                && self.pool_has(self.pool_keys@[k], index, node)
    }

    proof fn lemma_pooled_step(self, key_count: int, count: int, gone: Set<u64>)
        requires
            self.wf(),
            0 <= key_count < self.pool_keys@.len(),
            self.pool@.contains_key(self.pool_keys@[key_count]),
            0 <= count < self.pool@[self.pool_keys@[key_count]]@.len(),
            forall|n: u64| #[trigger]
                gone.contains(n) <==> self.is_pooled_before(key_count, count, n),
        ensures
            ({
                let node = self.pool@[self.pool_keys@[key_count]]@[count];
                &&& !gone.contains(node)
                &&& self.nodes().contains_key(node)
                &&& forall|n: u64| #[trigger]
                    gone.insert(node).contains(n) <==> self.is_pooled_before(
                        key_count,
                        count + 1,
                        n,
                    )
            }),
    {
        let key = self.pool_keys@[key_count];
        let node = self.pool@[key]@[count];
        assert(self.pool_has(self.pool_keys@[key_count], count, node));
        if self.is_pooled_before(key_count, count, node) {
            let (k, index) = choose|k: int, index: int|
                #![trigger self.pool_has(self.pool_keys@[k], index, node)]
                0 <= k < self.pool_keys@.len() && (k < key_count || (k == key_count && index
                    < count)) && self.pool_has(self.pool_keys@[k], index, node);
            assert(self.pool_keys@[k] == key);
            assert(k == key_count);
        }
        assert forall|n: u64| #[trigger] gone.insert(node).contains(n)
            <==> self.is_pooled_before(key_count, count + 1, n) by {
            if self.is_pooled_before(key_count, count, n) {
                let (k, index) = choose|k: int, index: int|
                    #![trigger self.pool_has(self.pool_keys@[k], index, n)]
                    0 <= k < self.pool_keys@.len() && (k < key_count || (k == key_count && index
                        < count)) && self.pool_has(self.pool_keys@[k], index, n);
                assert(self.pool_has(self.pool_keys@[k], index, n));
            }
            if self.is_pooled_before(key_count, count + 1, n) {
                let (k, index) = choose|k: int, index: int|
                    #![trigger self.pool_has(self.pool_keys@[k], index, n)]
                    0 <= k < self.pool_keys@.len() && (k < key_count || (k == key_count && index
                        < count + 1)) && self.pool_has(self.pool_keys@[k], index, n);
                if k == key_count && index == count {
                    assert(n == node);
                } else {
                    assert(self.pool_has(self.pool_keys@[k], index, n));
                    assert(self.is_pooled_before(key_count, count, n));
                }
            }
        }
    }

    /// Removes the nodes of the pool from the tree.
    fn sweep(&mut self)
        requires
            old(self).wf(),
        ensures
            final(self).nodes() == swept(old(self).nodes(), old(self).pooled()),
            final(self).styles@ == old(self).styles@.remove_keys(old(self).pooled()),
            forest(final(self).nodes(), final(self).rank@),
            *final(self) == (TaffyLayoutEngine {
                taffy: final(self).taffy,
                styles: final(self).styles,
                ..*old(self)
            }),
    {
        broadcast use vstd::std_specs::hash::group_hash_axioms;

        let ghost nodes = self.nodes();
        let ghost mut gone: Set<u64> = Set::empty();
        proof {
            lemma_nothing_swept(nodes);
            assert(self.styles@.remove_keys(gone) =~= self.styles@);
        }
        let mut k: usize = 0;
        while k < self.pool_keys.len()
            invariant
                old(self).wf(),
                nodes == old(self).nodes(),
                k <= self.pool_keys@.len(),
                *self == (TaffyLayoutEngine {
                    taffy: self.taffy,
                    styles: self.styles,
                    ..*old(self)
                }),
                self.nodes() == swept(nodes, gone),
                self.styles@ == old(self).styles@.remove_keys(gone),
                forest(self.nodes(), self.rank@),
                forall|n: u64| #[trigger]
                    gone.contains(n) <==> old(self).is_pooled_before(k as int, 0, n),
            decreases self.pool_keys@.len() - k,
        {
            let key = self.pool_keys[k];
            let ghost at = k as int;
            assert(old(self).pool_keys@.contains(old(self).pool_keys@[at]));
            assert(self.pool@.contains_key(key));
            let total: usize = self.pool.get(&key).unwrap().len();
            let mut i: usize = 0;
            while i < total
                invariant
                    old(self).wf(),
                    nodes == old(self).nodes(),
                    at == k,
                    k < self.pool_keys@.len(),
                    key == self.pool_keys@[at],
                    self.pool@.contains_key(key),
                    total == self.pool@[key]@.len(),
                    i <= total,
                    *self == (TaffyLayoutEngine {
                        taffy: self.taffy,
                        styles: self.styles,
                        ..*old(self)
                    }),
                    self.nodes() == swept(nodes, gone),
                    self.styles@ == old(self).styles@.remove_keys(gone),
                    forest(self.nodes(), self.rank@),
                    forall|n: u64| #[trigger]
                        gone.contains(n) <==> old(self).is_pooled_before(at, i as int, n),
                decreases total - i,
            {
                let node = self.pool.get(&key).unwrap()[i];
                proof {
                    old(self).lemma_pooled_step(at, i as int, gone);
                    lemma_swept_step(nodes, self.rank@, gone, node);
                    assert(self.nodes().contains_key(node));
                    assert(placed(self.nodes(), self.rank@, node));
                    lemma_removed(self.nodes(), self.rank@, node);
                }
                tree_remove(&mut self.taffy, node);
                self.styles.remove(&node);
                proof {
                    assert(self.styles@ =~= old(self).styles@.remove_keys(gone.insert(node)));
                    gone = gone.insert(node);
                }
                i = i + 1;
            }
            proof {
                assert forall|n: u64| #[trigger] gone.contains(n) <==> old(self).is_pooled_before(
                    at + 1,
                    0,
                    n,
                ) by {
                    old(self).lemma_bucket_done(at, n);
                }
            }
            k = k + 1;
        }
        proof {
            assert forall|n: u64| #[trigger] gone.contains(n) <==> old(self).is_pooled(n) by {
                if old(self).is_pooled(n) {
                    let (key, index) = choose|key: u64, index: int|
                        old(self).pool_has(key, index, n);
                    assert(old(self).pool_keys@.contains(key));
                    let at = choose|at: int|
                        0 <= at < old(self).pool_keys@.len() && old(self).pool_keys@[at] == key;
                    assert(old(self).pool_has(old(self).pool_keys@[at], index, n));
                }
            }
            assert(gone =~= old(self).pooled());
        }
    }

    /// Having seen the whole of one list is having seen none of the next.
    proof fn lemma_bucket_done(self, at: int, n: u64)
        requires
            0 <= at < self.pool_keys@.len(),
            self.pool@.contains_key(self.pool_keys@[at]),
        ensures
            self.is_pooled_before(at, self.pool@[self.pool_keys@[at]]@.len() as int, n)
                <==> self.is_pooled_before(at + 1, 0, n),
    {
        let count = self.pool@[self.pool_keys@[at]]@.len() as int;
        if self.is_pooled_before(at, count, n) {
            let (k, index) = choose|k: int, index: int|
                #![trigger self.pool_has(self.pool_keys@[k], index, n)]
                0 <= k < self.pool_keys@.len() && (k < at || (k == at && index < count))
                    && self.pool_has(self.pool_keys@[k], index, n);
            assert(self.pool_has(self.pool_keys@[k], index, n));
        }
        if self.is_pooled_before(at + 1, 0, n) {
            let (k, index) = choose|k: int, index: int|
                #![trigger self.pool_has(self.pool_keys@[k], index, n)]
                0 <= k < self.pool_keys@.len() && (k < at + 1 || (k == at + 1 && index < 0))
                    && self.pool_has(self.pool_keys@[k], index, n);
            assert(self.pool_has(self.pool_keys@[k], index, n));
        }
    }
}

/// The nodes of a list that have a key, in order.
pub open spec fn bucket_of(live: Seq<(u64, u64)>, key: u64) -> Seq<u64>
    decreases live.len(),
{
    if live.len() == 0 {
        seq![]
    } else if live.last().0 == key {
        bucket_of(live.drop_last(), key).push(live.last().1)
    } else {
        bucket_of(live.drop_last(), key)
    }
}

/// A node of a list has the key.
pub open spec fn has_key(live: Seq<(u64, u64)>, key: u64) -> bool {
    exists|i: int| 0 <= i < live.len() && (#[trigger] live[i]).0 == key
}

impl TaffyLayoutEngine {
    /// The pool holds the first nodes of a list, those with key zero left out.
    pub open spec fn pool_holds(self, live: Seq<(u64, u64)>) -> bool {
        &&& forall|key: u64| #[trigger]
            self.pool@.contains_key(key) <==> key != 0 && has_key(live, key)
        &&& forall|key: u64| #[trigger]
            self.pool@.contains_key(key) ==> self.pool@[key]@ == bucket_of(live, key)
    }

    /// The keys are those of the pool, and every node of the pool is one of the first of a list.
    spec fn pool_is_from(self, live: Seq<(u64, u64)>) -> bool {
        &&& self.pool_keys@.no_duplicates()
        &&& forall|key: u64| #[trigger]
            self.pool@.contains_key(key) <==> self.pool_keys@.contains(key)
        &&& forall|key: u64, index: int, node: u64| #[trigger]
            self.pool_has(key, index, node) ==> exists|i: int|
                0 <= i < live.len() && #[trigger] live[i] == (key, node)
        &&& forall|key: u64, index: int, other_key: u64, other_index: int, node: u64|
            #![trigger self.pool_has(key, index, node), self.pool_has(other_key, other_index, node)]
            self.pool_has(key, index, node) && self.pool_has(other_key, other_index, node) ==> key
                == other_key && index == other_index
    }

    proof fn lemma_pool_step(
        before: TaffyLayoutEngine,
        after: TaffyLayoutEngine,
        live: Seq<(u64, u64)>,
    )
        requires
            live.len() > 0,
            forall|i: int, j: int|
                #![trigger live[i], live[j]]
                0 <= i < j < live.len() ==> live[i].1 != live[j].1,
            before.pool_is_from(live.drop_last()),
            before.pool_holds(live.drop_last()),
            live.last().0 != 0,
            after.pool@.dom() == before.pool@.dom().insert(live.last().0),
            forall|k: u64|
                k != live.last().0 && before.pool@.contains_key(k) ==> #[trigger] after.pool@[k]
                    == before.pool@[k],
            before.pool@.contains_key(live.last().0) ==> {
                &&& after.pool@[live.last().0]@ == before.pool@[live.last().0]@.push(live.last().1)
                &&& after.pool_keys == before.pool_keys
            },
            !before.pool@.contains_key(live.last().0) ==> {
                &&& after.pool@[live.last().0]@ == seq![live.last().1]
                &&& after.pool_keys@ == before.pool_keys@.push(live.last().0)
            },
        ensures
            after.pool_is_from(live),
            after.pool_holds(live),
    {
        let key = live.last().0;
        let node = live.last().1;
        let shorter = live.drop_last();
        let last = live.len() - 1;
        assert(live[last] == (key, node));
        assert forall|k: u64| #[trigger] after.pool@.contains_key(k) <==> k == key
            || before.pool@.contains_key(k) by {
            assert(after.pool@.dom().contains(k) == before.pool@.dom().insert(key).contains(k));
        }
        assert forall|k: u64| has_key(live, k) <==> k == key || has_key(shorter, k) by {
            if has_key(shorter, k) {
                let i = choose|i: int| 0 <= i < shorter.len() && shorter[i].0 == k;
                assert(live[i].0 == k);
            }
            if has_key(live, k) && k != key {
                let i = choose|i: int| 0 <= i < live.len() && live[i].0 == k;
                assert(shorter[i].0 == k);
            }
        }
        if !before.pool@.contains_key(key) {
            lemma_no_bucket(shorter, key);
            assert(bucket_of(live, key) =~= seq![node]);
        }
        assert forall|k: u64| #[trigger] after.pool@.contains_key(k) implies after.pool@[k]@
            == bucket_of(live, k) by {
            if k != key {
                assert(after.pool@[k] == before.pool@[k]);
            }
        }
        assert(after.pool_holds(live));
        let old_len = if before.pool@.contains_key(key) {
            before.pool@[key]@.len() as int
        } else {
            0
        };
        assert forall|k: u64, j: int, n: u64| #[trigger] after.pool_has(k, j, n) implies (k == key
            && j == old_len && n == node) || before.pool_has(k, j, n) by {
            if k != key {
                assert(after.pool@[k] == before.pool@[k]);
            }
        }
        assert forall|k: u64, j: int, n: u64| #[trigger] after.pool_has(k, j, n) implies exists|
            i: int,
        | 0 <= i < live.len() && #[trigger] live[i] == (k, n) by {
            if before.pool_has(k, j, n) {
                let i = choose|i: int| 0 <= i < shorter.len() && #[trigger] shorter[i] == (k, n);
                assert(live[i] == (k, n));
            }
        }
        assert forall|k: u64, j: int| !before.pool_has(k, j, node) by {
            if before.pool_has(k, j, node) {
                let i = choose|i: int| 0 <= i < shorter.len() && #[trigger] shorter[i] == (k, node);
                assert(live[i].1 != live[last].1);
            }
        }
        assert(after.pool_keys@.no_duplicates()) by {
            if !before.pool@.contains_key(key) {
                assert(!before.pool_keys@.contains(key));
            }
        }
        assert forall|k: u64| #[trigger] after.pool@.contains_key(k) <==>
            after.pool_keys@.contains(k) by {
            if !before.pool@.contains_key(key) {
                assert(after.pool_keys@[before.pool_keys@.len() as int] == key);
                if before.pool_keys@.contains(k) {
                    let i = choose|i: int|
                        0 <= i < before.pool_keys@.len() && before.pool_keys@[i] == k;
                    assert(after.pool_keys@[i] == k);
                }
            }
        }
    }

    /// Fills the pool with the nodes of this frame.
    fn refill(&mut self)
        requires
            old(self).pool@ == Map::<u64, Vec<u64>>::empty(),
            old(self).pool_keys@.len() == 0,
            forall|i: int, j: int|
                #![trigger old(self).live@[i], old(self).live@[j]]
                0 <= i < j < old(self).live@.len() ==> old(self).live@[i].1 != old(self).live@[j].1,
        ensures
            *final(self) == (TaffyLayoutEngine {
                pool: final(self).pool,
                pool_keys: final(self).pool_keys,
                ..*old(self)
            }),
            final(self).pool_is_from(old(self).live@),
            final(self).pool_holds(old(self).live@),
    {
        broadcast use vstd::std_specs::hash::group_hash_axioms;

        let mut i: usize = 0;
        while i < self.live.len()
            invariant
                i <= self.live@.len(),
                forall|i: int, j: int|
                    #![trigger self.live@[i], self.live@[j]]
                    0 <= i < j < self.live@.len() ==> self.live@[i].1 != self.live@[j].1,
                *self == (TaffyLayoutEngine {
                    pool: self.pool,
                    pool_keys: self.pool_keys,
                    ..*old(self)
                }),
                self.pool_is_from(self.live@.take(i as int)),
                self.pool_holds(self.live@.take(i as int)),
            decreases self.live@.len() - i,
        {
            let (key, node) = self.live[i];
            let ghost before = *self;
            let ghost upto = self.live@.take(i + 1);
            assert(upto.drop_last() =~= self.live@.take(i as int));
            if key != 0 {
                match self.pool.remove(&key) {
                    Some(bucket) => {
                        let mut bucket = bucket;
                        bucket.push(node);
                        self.pool.insert(key, bucket);
                    },
                    None => {
                        let mut bucket: Vec<u64> = Vec::new();
                        bucket.push(node);
                        assert(bucket@ =~= seq![node]);
                        self.pool.insert(key, bucket);
                        self.pool_keys.push(key);
                    },
                }
                proof {
                    assert(self.pool@.dom() =~= before.pool@.dom().insert(key));
                    assert forall|a: int, b: int|
                        #![trigger upto[a], upto[b]]
                        0 <= a < b < upto.len() implies upto[a].1 != upto[b].1 by {
                        assert(self.live@[a].1 != self.live@[b].1);
                    }
                    Self::lemma_pool_step(before, *self, upto);
                }
            } else {
                proof {
                    self.lemma_pool_skip(upto);
                }
            }
            i = i + 1;
        }
        assert(self.live@.take(i as int) =~= self.live@);
    }

    /// A node with key zero changes nothing in the pool.
    proof fn lemma_pool_skip(self, live: Seq<(u64, u64)>)
        requires
            live.len() > 0,
            live.last().0 == 0,
            self.pool_is_from(live.drop_last()),
            self.pool_holds(live.drop_last()),
        ensures
            self.pool_is_from(live),
            self.pool_holds(live),
    {
        let shorter = live.drop_last();
        assert forall|k: u64| k != 0 implies has_key(live, k) == has_key(shorter, k) by {
            if has_key(shorter, k) {
                let i = choose|i: int| 0 <= i < shorter.len() && shorter[i].0 == k;
                assert(live[i].0 == k);
            }
            if has_key(live, k) {
                let i = choose|i: int| 0 <= i < live.len() && live[i].0 == k;
                assert(shorter[i].0 == k);
            }
        }
        assert forall|k: u64, j: int, n: u64| #[trigger] self.pool_has(k, j, n) implies exists|
            i: int,
        | 0 <= i < live.len() && #[trigger] live[i] == (k, n) by {
            let i = choose|i: int| 0 <= i < shorter.len() && #[trigger] shorter[i] == (k, n);
            assert(live[i] == (k, n));
        }
    }
}

proof fn lemma_no_bucket(live: Seq<(u64, u64)>, key: u64)
    requires
        !has_key(live, key),
    ensures
        bucket_of(live, key) == Seq::<u64>::empty(),
    decreases live.len(),
{
    if live.len() > 0 {
        assert(live[live.len() - 1].0 != key);
        let shorter = live.drop_last();
        assert(!has_key(shorter, key)) by {
            if has_key(shorter, key) {
                let i = choose|i: int| 0 <= i < shorter.len() && shorter[i].0 == key;
                assert(live[i].0 == key);
            }
        }
        lemma_no_bucket(shorter, key);
    }
}

impl TaffyLayoutEngine {
    /// What the end of a frame does.
    pub open spec fn cleared(self, after: TaffyLayoutEngine) -> bool {
        &&& if self.retain {
            &&& after.nodes() == swept(self.nodes(), self.pooled())
            &&& after.styles@ == self.styles@.remove_keys(self.pooled())
            &&& after.pool_holds(self.live@)
            &&& after.live@.len() == 0
            &&& after.pending_remeasure@.len() == 0
            &&& after.unstyled == self.unstyled
        } else {
            &&& after.nodes() == Map::<u64, TreeNode>::empty()
            &&& after.styles@ == Map::<u64, TaffyStyle>::empty()
            &&& after.unstyled@.len() == 0
            &&& after.pool == self.pool
            &&& after.live == self.live
            &&& after.pending_remeasure == self.pending_remeasure
        }
        &&& after.cut@ == Set::<u64>::empty()
        &&& after.absolute_layout_bounds@ == Map::<u64, Bounds<Pixels>>::empty()
        &&& after.absolute_outer_origins@ == Map::<u64, Point<Real32>>::empty()
        &&& after.computed_layouts@ == Set::<u64>::empty()
        &&& after.retain == self.retain
        &&& after.verify == self.verify
        &&& after.reuse_counts == self.reuse_counts
    }

    /// Forgetting bounds leaves an engine well-formed, with the same nodes in its pool.
    proof fn lemma_same_pool(before: TaffyLayoutEngine, after: TaffyLayoutEngine)
        requires
            before.wf(),
            after.absolute_layout_bounds@.dom() == after.absolute_outer_origins@.dom(),
            after == (TaffyLayoutEngine {
                absolute_layout_bounds: after.absolute_layout_bounds,
                absolute_outer_origins: after.absolute_outer_origins,
                computed_layouts: after.computed_layouts,
                cut: after.cut,
                ..before
            }),
        ensures
            after.wf(),
            after.pooled() == before.pooled(),
    {
        Self::lemma_same_tree(before, after);
        assert forall|n: u64| #[trigger] after.is_pooled(n) == before.is_pooled(n) by {
            if after.is_pooled(n) {
                let (k, j) = choose|k: u64, j: int| after.pool_has(k, j, n);
                assert(before.pool_has(k, j, n));
            }
            if before.is_pooled(n) {
                let (k, j) = choose|k: u64, j: int| before.pool_has(k, j, n);
                assert(after.pool_has(k, j, n));
            }
        }
        assert(after.pooled() =~= before.pooled());
    }

    /// Ends a frame. Where nodes are kept, those that were in the pool all along are removed, and
    /// those of this frame that have a key are in the pool for the next.
    pub fn clear(&mut self)
        requires
            old(self).wf(),
        ensures
            final(self).wf(),
            old(self).cleared(*final(self)),
    {
        broadcast use vstd::std_specs::hash::group_hash_axioms;

        self.absolute_layout_bounds.clear();
        self.absolute_outer_origins.clear();
        self.computed_layouts.clear();
        self.cut.clear();
        let ghost begun = *self;
        proof {
            assert(begun.absolute_layout_bounds@.dom() =~= begun.absolute_outer_origins@.dom());
            Self::lemma_same_pool(*old(self), begun);
        }
        if self.retain {
            self.sweep();
            self.pool.clear();
            self.pool_keys.clear();
            self.refill();
            let ghost filled = *self;
            self.live.clear();
            self.pending_remeasure.clear();
            proof {
                assert(self.styles@.dom() =~= self.nodes().dom());
                assert forall|k: u64, j: int, n: u64| #[trigger] self.pool_has(k, j, n) implies
                    self.nodes().contains_key(n) by {
                    assert(filled.pool_has(k, j, n));
                    let i = choose|i: int|
                        0 <= i < old(self).live@.len() && #[trigger] old(self).live@[i] == (k, n);
                    assert(old(self).nodes().contains_key(old(self).live@[i].1));
                    assert(old(self).is_live(n));
                    assert(!old(self).pooled().contains(n));
                }
                assert forall|k: u64, j: int, k2: u64, j2: int, n: u64|
                    #![trigger self.pool_has(k, j, n), self.pool_has(k2, j2, n)]
                    self.pool_has(k, j, n) && self.pool_has(k2, j2, n) implies k == k2 && j
                    == j2 by {
                    assert(filled.pool_has(k, j, n) && filled.pool_has(k2, j2, n));
                }
                assert(self.wf_pool());
            }
        } else {
            tree_clear(&mut self.taffy);
            self.styles.clear();
            self.unstyled.clear();
            proof {
                assert(self.nodes() =~= Map::<u64, TreeNode>::empty());
                assert(self.styles@.dom() =~= self.nodes().dom());
                assert forall|k: u64, j: int, n: u64| !(#[trigger] self.pool_has(k, j, n)) by {
                    assert(!self.pool_keys@.contains(k));
                    assert(self.pool@.contains_key(k) == self.pool_keys@.contains(k));
                }
            }
        }
    }
}

} // verus!
