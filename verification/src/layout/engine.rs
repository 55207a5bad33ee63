//! The layout engine.
//!
//! The tree of elements is built anew in every frame, but the nodes of its layout are kept. A node
//! that is requested with the same style and the same children as one of the frame before, and for
//! a measured leaf with the same content, is that node, with everything that the solver found for
//! it. Only nodes whose inputs changed, and their ancestors, are laid out anew.

use crate::geometry::{Bounds, Pixels, Point, Real32};
use crate::layout::flags::{env_flag, says_false};
use crate::layout::forest::forest;
use crate::layout::tree::{
    tree_children, tree_context, tree_disable_rounding, tree_new, tree_nodes, NodeContext, TreeNode,
};
use crate::style::{law_equal_styles_have_equal_fields, same_fields, TaffyStyle};
use std::collections::{HashMap, HashSet};
use vstd::prelude::*;

verus! {

/// Names a node of the layout.
#[derive(Clone, Copy, Debug, PartialEq, Eq, Structural)]
pub struct LayoutId(pub u64);

pub struct TaffyLayoutEngine {
    pub taffy: taffy::TaffyTree<NodeContext>,
    /// The style of every node of the tree.
    pub styles: HashMap<u64, TaffyStyle>,
    /// The nodes whose styles the tree has not been told yet.
    pub unstyled: Vec<u64>,
    pub absolute_layout_bounds: HashMap<u64, Bounds<Pixels>>,
    /// The near corners of nodes in device pixels, not rounded.
    pub absolute_outer_origins: HashMap<u64, Point<Real32>>,
    pub computed_layouts: HashSet<u64>,
    /// Whether nodes are kept.
    pub retain: bool,
    /// The nodes of the frame before that were not requested again yet, by their keys.
    pub pool: HashMap<u64, Vec<u64>>,
    /// The keys of the pool.
    pub pool_keys: Vec<u64>,
    /// The nodes of the pool that lost a child to a node of this frame. They are no longer what they
    /// were requested as.
    pub cut: HashSet<u64>,
    /// The nodes of this frame with their keys, zero for one that is not kept.
    pub live: Vec<(u64, u64)>,
    /// Measured leaves that were kept. The solver may not measure them, so they are measured with
    /// what they were last measured with.
    pub pending_remeasure: Vec<u64>,
    /// Whether every layout is compared with one that is computed from nothing.
    pub verify: bool,
    /// How many nodes were created and how many kept since this was last asked for.
    pub reuse_counts: (u64, u64),
    /// A number for every node that is above those of its children.
    pub rank: Ghost<Map<u64, nat>>,
    /// A number above those of all nodes.
    pub top: Ghost<nat>,
}

impl TaffyLayoutEngine {
    pub open spec fn nodes(self) -> Map<u64, TreeNode> {
        tree_nodes(self.taffy)
    }

    /// The node is in the pool, at a place.
    pub open spec fn pool_has(self, key: u64, index: int, node: u64) -> bool {
        &&& self.pool@.contains_key(key)
        &&& 0 <= index < self.pool@[key]@.len()
        &&& self.pool@[key]@[index] == node
    }

    /// The node was handed out in this frame.
    pub open spec fn is_live(self, node: u64) -> bool {
        exists|i: int| 0 <= i < self.live@.len() && (#[trigger] self.live@[i]).1 == node
    }

    /// The node belongs to the tree of this frame.
    pub open spec fn is_current(self, node: u64) -> bool {
        self.nodes().contains_key(node) && (self.retain ==> self.is_live(node))
    }

    pub open spec fn wf_pool(self) -> bool {
        &&& self.pool_keys@.no_duplicates()
        &&& forall|key: u64| #[trigger]
            self.pool@.contains_key(key) <==> self.pool_keys@.contains(key)
        &&& forall|key: u64, index: int, node: u64| #[trigger]
            self.pool_has(key, index, node) ==> self.nodes().contains_key(node)
        &&& forall|key: u64, index: int, other_key: u64, other_index: int, node: u64|
            #![trigger self.pool_has(key, index, node), self.pool_has(other_key, other_index, node)]
            self.pool_has(key, index, node) && self.pool_has(other_key, other_index, node) ==> key
                == other_key && index == other_index
    }

    pub open spec fn wf_live(self) -> bool {
        &&& forall|i: int|
            0 <= i < self.live@.len() ==> self.nodes().contains_key((#[trigger] self.live@[i]).1)
        &&& forall|i: int, j: int|
            #![trigger self.live@[i], self.live@[j]]
            0 <= i < j < self.live@.len() ==> self.live@[i].1 != self.live@[j].1
        &&& forall|key: u64, index: int, node: u64| #[trigger]
            self.pool_has(key, index, node) ==> !self.is_live(node)
        &&& forall|i: int| 0 <= i < self.live@.len() ==> self.is_whole((#[trigger] self.live@[i]).1)
    }

    /// The children of the node were handed out in this frame.
    pub open spec fn is_whole(self, node: u64) -> bool {
        forall|j: int|
            0 <= j < self.nodes()[node].children.len() ==> self.is_live(
                #[trigger] self.nodes()[node].children[j],
            )
    }

    /// The tree is a forest with a style for each node. What is in the pool is in the tree, and
    /// once. So is what is live, and nothing is both. The children of what is live are live. Where
    /// bounds are known, so is the corner, and nowhere else.
    pub open spec fn wf(self) -> bool {
        &&& forest(self.nodes(), self.rank@)
        &&& self.styles@.dom() == self.nodes().dom()
        &&& self.wf_pool()
        &&& self.retain ==> self.wf_live()
        &&& !self.retain ==> self.pool_keys@.len() == 0 && self.pending_remeasure@.len() == 0
        &&& forall|i: int|
            0 <= i < self.pending_remeasure@.len() ==> self.nodes().contains_key(
                #[trigger] self.pending_remeasure@[i],
            )
        &&& self.absolute_layout_bounds@.dom() == self.absolute_outer_origins@.dom()
        &&& forall|node: u64| #[trigger]
            self.nodes().contains_key(node) ==> self.rank@[node] < self.top@
    }

    /// A node has a style and children and, where it is a measured leaf, a content.
    pub open spec fn looks_like(
        self,
        candidate: u64,
        style: TaffyStyle,
        children: Seq<u64>,
        content: Option<u64>,
    ) -> bool {
        &&& match content {
            Some(_) => {
                &&& self.nodes()[candidate].context matches Some(context)
                &&& context.content_key == content
            },
            None => self.nodes()[candidate].context is None,
        }
        &&& self.styles@[candidate].same(style)
        &&& self.nodes()[candidate].children == children
    }

    /// A candidate is the node that is asked for: it looks like it, and always did.
    pub open spec fn matches(
        self,
        candidate: u64,
        style: TaffyStyle,
        children: Seq<u64>,
        content: Option<u64>,
    ) -> bool {
        self.looks_like(candidate, style, children, content) && !self.cut@.contains(candidate)
    }

    /// The first candidate of a list that matches.
    pub open spec fn first_match(
        self,
        bucket: Seq<u64>,
        style: TaffyStyle,
        children: Seq<u64>,
        content: Option<u64>,
    ) -> Option<int>
        decreases bucket.len(),
    {
        if bucket.len() == 0 {
            None
        } else {
            match self.first_match(bucket.drop_last(), style, children, content) {
                Some(i) => Some(i),
                None => if self.matches(bucket.last(), style, children, content) {
                    Some(bucket.len() - 1)
                } else {
                    None
                },
            }
        }
    }

    /// The place in the pool of a node that can be kept.
    pub open spec fn reusable(
        self,
        key: u64,
        style: TaffyStyle,
        children: Seq<u64>,
        content: Option<u64>,
    ) -> Option<int> {
        if self.pool@.contains_key(key) {
            self.first_match(self.pool@[key]@, style, children, content)
        } else {
            None
        }
    }

    /// Everything but the pool.
    pub open spec fn same_but_pool(self, other: TaffyLayoutEngine) -> bool {
        self == TaffyLayoutEngine { pool: self.pool, ..other }
    }
}

impl TaffyLayoutEngine {
    /// An engine without nodes. The two settings are what the environment holds for them: whether
    /// nodes are kept, which is so unless it is turned off, and whether layouts are verified, which
    /// is so only where it is turned on.
    pub fn new(retain: Option<&str>, verify: Option<&str>) -> (r: TaffyLayoutEngine)
        ensures
            r.wf(),
            r.nodes() == Map::<u64, TreeNode>::empty(),
            r.retain == match retain {
                Some(text) => !(text@ == "0"@ || says_false(text@)),
                None => true,
            },
            r.verify == match verify {
                Some(text) => !(text@ == "0"@ || says_false(text@)),
                None => false,
            },
            r.absolute_layout_bounds@ == Map::<u64, Bounds<Pixels>>::empty(),
            r.absolute_outer_origins@ == Map::<u64, Point<Real32>>::empty(),
            r.computed_layouts@ == Set::<u64>::empty(),
            r.styles@ == Map::<u64, TaffyStyle>::empty(),
            r.unstyled@ == Seq::<u64>::empty(),
            r.pool@ == Map::<u64, Vec<u64>>::empty(),
            r.cut@ == Set::<u64>::empty(),
            r.live@ == Seq::<(u64, u64)>::empty(),
            r.pending_remeasure@ == Seq::<u64>::empty(),
            r.reuse_counts == (0u64, 0u64),
    {
        broadcast use vstd::std_specs::hash::group_hash_axioms;

        let mut taffy = tree_new();
        tree_disable_rounding(&mut taffy);
        let engine = TaffyLayoutEngine {
            taffy,
            styles: HashMap::new(),
            unstyled: Vec::new(),
            absolute_layout_bounds: HashMap::new(),
            absolute_outer_origins: HashMap::new(),
            computed_layouts: HashSet::new(),
            retain: env_flag(retain, true),
            pool: HashMap::new(),
            pool_keys: Vec::new(),
            cut: HashSet::new(),
            live: Vec::new(),
            pending_remeasure: Vec::new(),
            verify: env_flag(verify, false),
            reuse_counts: (0, 0),
            rank: Ghost(Map::empty()),
            top: Ghost(0),
        };
        assert(engine.nodes() =~= Map::<u64, TreeNode>::empty());
        assert(engine.styles@.dom() =~= engine.nodes().dom());
        assert(engine.absolute_layout_bounds@.dom() =~= engine.absolute_outer_origins@.dom());
        engine
    }
}

/// A list after the item at an index was taken out and the last one put in its place.
pub open spec fn swap_removed(list: Seq<u64>, index: int) -> Seq<u64> {
    list.update(index, list.last()).drop_last()
}

fn same_list(a: &Vec<u64>, b: &Vec<u64>) -> (r: bool)
    ensures
        r == (a@ == b@),
{
    if a.len() != b.len() {
        return false;
    }
    let mut i: usize = 0;
    while i < a.len()
        invariant
            a@.len() == b@.len(),
            i <= a@.len(),
            forall|j: int| 0 <= j < i ==> a@[j] == b@[j],
        decreases a@.len() - i,
    {
        if a[i] != b[i] {
            return false;
        }
        i = i + 1;
    }
    assert(a@ =~= b@);
    true
}

impl TaffyLayoutEngine {
    fn is_match(
        &self,
        candidate: u64,
        style: &TaffyStyle,
        children: &Vec<u64>,
        content: Option<u64>,
    ) -> (r: bool)
        requires
            self.wf(),
            self.nodes().contains_key(candidate),
        ensures
            r == self.matches(candidate, *style, children@, content),
    {
        broadcast use vstd::std_specs::hash::group_hash_axioms;

        if self.cut.contains(&candidate) {
            return false;
        }
        let same_content = match (tree_context(&self.taffy, candidate), content) {
            (Some(context), Some(key)) => match context.content_key {
                Some(own_key) => own_key == key,
                None => false,
            },
            (None, None) => true,
            _ => false,
        };
        if !same_content {
            return false;
        }
        let same_style = match self.styles.get(&candidate) {
            Some(candidate_style) => candidate_style.is_same(style),
            None => false,
        };
        assert(self.styles@.dom().contains(candidate));
        same_style && same_list(&tree_children(&self.taffy, candidate), children)
    }

    /// The first candidate of a list that matches.
    fn find_match(
        &self,
        bucket: &Vec<u64>,
        style: &TaffyStyle,
        children: &Vec<u64>,
        content: Option<u64>,
    ) -> (r: Option<usize>)
        requires
            self.wf(),
            forall|i: int|
                0 <= i < bucket@.len() ==> self.nodes().contains_key(#[trigger] bucket@[i]),
        ensures
            match r {
                Some(i) => i < bucket@.len() && self.first_match(
                    bucket@,
                    *style,
                    children@,
                    content,
                ) == Some(i as int),
                None => self.first_match(bucket@, *style, children@, content) is None,
            },
    {
        let mut i: usize = 0;
        while i < bucket.len()
            invariant
                self.wf(),
                forall|i: int|
                    0 <= i < bucket@.len() ==> self.nodes().contains_key(#[trigger] bucket@[i]),
                i <= bucket@.len(),
                self.first_match(bucket@.take(i as int), *style, children@, content) is None,
            decreases bucket@.len() - i,
        {
            assert(bucket@.take(i + 1).drop_last() =~= bucket@.take(i as int));
            if self.is_match(bucket[i], style, children, content) {
                proof {
                    self.lemma_first_match_stays(bucket@, *style, children@, content, i + 1);
                }
                return Some(i);
            }
            i = i + 1;
        }
        assert(bucket@.take(i as int) =~= bucket@);
        None
    }

    proof fn lemma_first_match_stays(
        self,
        bucket: Seq<u64>,
        style: TaffyStyle,
        children: Seq<u64>,
        content: Option<u64>,
        count: int,
    )
        requires
            0 <= count <= bucket.len(),
            self.first_match(bucket.take(count), style, children, content) is Some,
        ensures
            self.first_match(bucket, style, children, content) == self.first_match(
                bucket.take(count),
                style,
                children,
                content,
            ),
        decreases bucket.len() - count,
    {
        if count == bucket.len() {
            assert(bucket.take(count) =~= bucket);
        } else {
            assert(bucket.take(count + 1).drop_last() =~= bucket.take(count));
            self.lemma_first_match_stays(bucket, style, children, content, count + 1);
        }
    }

    /// Takes a node that can be kept out of the pool, if there is one.
    pub(crate) fn take_reusable(
        &mut self,
        key: u64,
        style: &TaffyStyle,
        children: &Vec<u64>,
        content: Option<u64>,
    ) -> (r: Option<u64>)
        requires
            old(self).wf(),
        ensures
            final(self).wf(),
            final(self).same_but_pool(*old(self)),
            final(self).pool@.dom() == old(self).pool@.dom(),
            forall|other: u64|
                other != key && old(self).pool@.contains_key(other)
                    ==> #[trigger] final(self).pool@[other] == old(self).pool@[other],
            match old(self).reusable(key, *style, children@, content) {
                Some(i) => {
                    &&& r == Some(old(self).pool@[key]@[i])
                    &&& old(self).pool_has(key, i, r->0)
                    &&& final(self).pool@[key]@ == swap_removed(old(self).pool@[key]@, i)
                    &&& forall|k: u64, j: int| !final(self).pool_has(k, j, r->0)
                },
                None => {
                    &&& r is None
                    &&& *final(self) == *old(self)
                },
            },
    {
        broadcast use vstd::std_specs::hash::group_hash_axioms;

        let found = match self.pool.get(&key) {
            Some(bucket) => {
                assert forall|i: int| 0 <= i < bucket@.len() implies self.nodes().contains_key(
                    #[trigger] bucket@[i],
                ) by {
                    assert(self.pool_has(key, i, bucket@[i]));
                }
                self.find_match(bucket, style, children, content)
            },
            None => None,
        };
        let position = match found {
            Some(position) => position,
            None => {
                return None;
            },
        };
        let mut bucket = self.pool.remove(&key).unwrap();
        let ghost all = bucket@;
        let node = bucket.swap_remove(position);
        self.pool.insert(key, bucket);
        proof {
            assert(old(self).pool_has(key, position as int, node));
            assert(self.pool@.dom() =~= old(self).pool@.dom());
            Self::lemma_taken(*old(self), *self, key, position as int);
        }
        Some(node)
    }

    /// What is left of the pool after a node was taken from it was in it before.
    proof fn lemma_taken(before: TaffyLayoutEngine, after: TaffyLayoutEngine, key: u64, taken: int)
        requires
            before.wf(),
            after.same_but_pool(before),
            after.pool@.dom() == before.pool@.dom(),
            before.pool@.contains_key(key),
            0 <= taken < before.pool@[key]@.len(),
            after.pool@[key]@ == swap_removed(before.pool@[key]@, taken),
            forall|other: u64|
                other != key && before.pool@.contains_key(other)
                    ==> #[trigger] after.pool@[other] == before.pool@[other],
        ensures
            after.wf(),
            forall|k: u64, j: int| !after.pool_has(k, j, before.pool@[key]@[taken]),
            forall|k: u64, j: int, node: u64| #[trigger]
                after.pool_has(k, j, node) ==> exists|i: int| before.pool_has(k, i, node),
    {
        let node = before.pool@[key]@[taken];
        let last = before.pool@[key]@.len() - 1;
        assert forall|k: u64, j: int, n: u64| #[trigger] after.pool_has(k, j, n) implies
            before.pool_has(k, if k == key && j == taken {
            last
        } else {
            j
        }, n) by {
            assert(after.pool@.dom().contains(k));
            if k == key {
                assert(after.pool@[k]@.len() == last);
            } else {
                assert(after.pool@[k] == before.pool@[k]);
            }
        }
        assert(before.pool_has(key, taken, node));
        assert forall|k: u64, j: int| !after.pool_has(k, j, node) by {
            if after.pool_has(k, j, node) {
                let i = if k == key && j == taken {
                    last
                } else {
                    j
                };
                assert(before.pool_has(k, i, node));
                assert(k == key && i == taken);
            }
        }
        assert(after.wf_pool()) by {
            assert forall|k: u64| #[trigger] after.pool@.contains_key(k) <==>
                after.pool_keys@.contains(k) by {
                assert(before.pool@.contains_key(k) <==> before.pool_keys@.contains(k));
                assert(after.pool@.dom().contains(k) == before.pool@.dom().contains(k));
            }
            assert forall|k: u64, j: int, n: u64| #[trigger] after.pool_has(k, j, n) implies
                after.nodes().contains_key(n) by {
                let i = if k == key && j == taken {
                    last
                } else {
                    j
                };
                assert(before.pool_has(k, i, n));
            }
            assert forall|k: u64, j: int, k2: u64, j2: int, n: u64|
                #![trigger after.pool_has(k, j, n), after.pool_has(k2, j2, n)]
                after.pool_has(k, j, n) && after.pool_has(k2, j2, n) implies k == k2 && j
                == j2 by {
                let i = if k == key && j == taken {
                    last
                } else {
                    j
                };
                let i2 = if k2 == key && j2 == taken {
                    last
                } else {
                    j2
                };
                assert(before.pool_has(k, i, n));
                assert(before.pool_has(k2, i2, n));
                assert(after.pool@[key]@.len() == last);
            }
        }
        assert forall|k: u64, j: int, n: u64| #[trigger] after.pool_has(k, j, n) implies exists|
            i: int,
        | before.pool_has(k, i, n) by {
            let i = if k == key && j == taken {
                last
            } else {
                j
            };
            assert(before.pool_has(k, i, n));
        }
        if after.retain {
            assert(after.wf_live()) by {
                assert forall|k: u64, j: int, n: u64| #[trigger]
                    after.pool_has(k, j, n) implies !after.is_live(n) by {
                    let i = if k == key && j == taken {
                        last
                    } else {
                        j
                    };
                    assert(before.pool_has(k, i, n));
                    assert(!before.is_live(n));
                    assert(after.live == before.live);
                }
                assert forall|i: int| 0 <= i < after.live@.len() implies after.is_whole(
                    (#[trigger] after.live@[i]).1,
                ) by {
                    assert(before.is_whole(before.live@[i].1));
                    assert forall|j: int|
                        0 <= j < after.nodes()[after.live@[i].1].children.len() implies
                        after.is_live(#[trigger] after.nodes()[after.live@[i].1].children[j]) by {
                        assert(before.is_live(before.nodes()[before.live@[i].1].children[j]));
                    }
                }
            }
        }
    }

    /// Styles, and bounds that are learnt or forgotten, leave an engine well-formed.
    pub(crate) proof fn lemma_same_tree(before: TaffyLayoutEngine, after: TaffyLayoutEngine)
        requires
            before.wf(),
            after.styles@.dom() == before.styles@.dom(),
            after.absolute_layout_bounds@.dom() == after.absolute_outer_origins@.dom(),
            after.pending_remeasure@.len() == 0 || after.pending_remeasure
                == before.pending_remeasure,
            after == (TaffyLayoutEngine {
                styles: after.styles,
                unstyled: after.unstyled,
                absolute_layout_bounds: after.absolute_layout_bounds,
                absolute_outer_origins: after.absolute_outer_origins,
                computed_layouts: after.computed_layouts,
                pending_remeasure: after.pending_remeasure,
                reuse_counts: after.reuse_counts,
                cut: after.cut,
                ..before
            }),
        ensures
            after.wf(),
    {
        assert forall|k: u64, j: int, n: u64| #[trigger] after.pool_has(k, j, n)
            == before.pool_has(k, j, n) by {}
        assert forall|n: u64| #[trigger] after.is_live(n) == before.is_live(n) by {}
        assert(after.wf_pool());
        if after.retain {
            assert forall|k: u64, j: int, n: u64| #[trigger] after.pool_has(k, j, n) implies
                !after.is_live(n) by {
                assert(before.pool_has(k, j, n));
                assert(!before.is_live(n));
            }
            assert forall|i: int| 0 <= i < after.live@.len() implies after.is_whole(
                (#[trigger] after.live@[i]).1,
            ) by {
                let node = after.live@[i].1;
                assert(before.is_whole(before.live@[i].1));
                assert forall|j: int| 0 <= j < after.nodes()[node].children.len() implies
                    after.is_live(#[trigger] after.nodes()[node].children[j]) by {
                    assert(before.is_live(before.nodes()[node].children[j]));
                }
            }
            assert(after.wf_live());
        }
    }
}

/// The node that is kept is the first of the candidates that are not cut and look like what is asked
/// for, and where none does none is kept.
pub proof fn law_the_first_match_is_kept(
    engine: TaffyLayoutEngine,
    bucket: Seq<u64>,
    style: TaffyStyle,
    children: Seq<u64>,
    content: Option<u64>,
)
    ensures
        match engine.first_match(bucket, style, children, content) {
            Some(index) => {
                &&& 0 <= index < bucket.len()
                &&& !engine.cut@.contains(bucket[index])
                &&& engine.looks_like(bucket[index], style, children, content)
                &&& forall|i: int|
                    0 <= i < index ==> engine.cut@.contains(#[trigger] bucket[i])
                        || !engine.looks_like(bucket[i], style, children, content)
            },
            None => forall|i: int|
                0 <= i < bucket.len() ==> engine.cut@.contains(#[trigger] bucket[i])
                    || !engine.looks_like(bucket[i], style, children, content),
        },
    decreases bucket.len(),
{
    if bucket.len() > 0 {
        let shorter = bucket.drop_last();
        law_the_first_match_is_kept(engine, shorter, style, children, content);
        assert(forall|i: int| 0 <= i < shorter.len() ==> #[trigger] bucket[i] == shorter[i]);
        assert(bucket[bucket.len() - 1] == bucket.last());
    }
}

/// A candidate looks like what is asked for if and only if every field of its style has the requested
/// value, its children are the requested ones in order, and it is a measured leaf of the requested
/// content, or none where none is asked for.
pub proof fn law_candidates_are_compared_in_full(
    engine: TaffyLayoutEngine,
    candidate: u64,
    style: TaffyStyle,
    children: Seq<u64>,
    content: Option<u64>,
)
    ensures
        engine.looks_like(candidate, style, children, content) <==> {
            let node = engine.nodes()[candidate];
            &&& same_fields(engine.styles@[candidate], style)
            &&& node.children.len() == children.len()
            &&& forall|i: int|
                0 <= i < children.len() ==> #[trigger] node.children[i] == children[i]
            &&& content is None ==> node.context is None
            &&& content is Some ==> node.context is Some && node.context->0.content_key is Some
                && node.context->0.content_key->0 == content->0
        },
{
    law_equal_styles_have_equal_fields(engine.styles@[candidate], style);
    let node = engine.nodes()[candidate];
    if node.children.len() == children.len() && forall|i: int|
        0 <= i < children.len() ==> #[trigger] node.children[i] == children[i] {
        assert(node.children =~= children);
    }
}

/// A node that leaves the list leaves all others in it, and once: the last takes its place.
pub proof fn law_taking_one_leaves_the_others(list: Seq<u64>, index: int, other: int)
    requires
        0 <= index < list.len(),
        0 <= other < list.len(),
        other != index,
    ensures
        swap_removed(list, index).len() == list.len() - 1,
        other < list.len() - 1 ==> swap_removed(list, index)[other] == list[other],
        other == list.len() - 1 ==> swap_removed(list, index)[index] == list[other],
{
}

} // verus!
