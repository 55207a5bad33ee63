//! What holds over many steps: within a frame, from one frame to the next, and of the counts.
//!
//! A history is a list of the states of an engine, each of which comes from the one before it by one
//! step.

use crate::layout::engine::{swap_removed, LayoutId, TaffyLayoutEngine};
use crate::layout::forest::placed;
use crate::layout::key::{key_of, law_keys_are_not_zero};
use crate::layout::laws::{
    law_nodes_are_handed_out_once, law_nodes_of_a_frame_outlive_it, law_requests_leave_the_pool,
};
use crate::layout::request::{all_orphaned, lemma_all_orphaned, lemma_orphans_stay};
use crate::layout::stats::LayoutStats;
use crate::layout::sweep::bucket_of;
use crate::layout::tree::{NodeContext, TreeNode};
use crate::style::{law_equal_styles_have_equal_fields, same_fields, TaffyStyle};
use vstd::prelude::*;

verus! {

// ---- steps -------------------------------------------------------------------------------------

impl TaffyLayoutEngine {
    /// A frame went on without a request: nodes were laid out, measured and asked for their bounds,
    /// and nodes of this frame were stretched.
    pub open spec fn went_on(self, after: TaffyLayoutEngine) -> bool {
        &&& after.retain == self.retain
        &&& after.pool == self.pool
        &&& after.cut == self.cut
        &&& after.live == self.live
        &&& after.nodes().dom() == self.nodes().dom()
        &&& forall|node: u64| #[trigger]
            self.nodes().contains_key(node) ==> {
                &&& after.nodes()[node].children == self.nodes()[node].children
                &&& after.nodes()[node].parent == self.nodes()[node].parent
                &&& match self.nodes()[node].context {
                    Some(context) => {
                        &&& after.nodes()[node].context matches Some(measured)
                        &&& measured == NodeContext { last_args: measured.last_args, ..context }
                    },
                    None => after.nodes()[node].context is None,
                }
                &&& !self.is_live(node) ==> after.styles@[node] == self.styles@[node]
            }
    }

    /// A step within a frame: a request, or anything else.
    pub open spec fn continued(self, after: TaffyLayoutEngine) -> bool {
        self.went_on(after) || exists|id: u64| #[trigger] self.handed_out(id, after)
    }

    /// The node waits in the pool under a key.
    pub open spec fn waits_under(self, key: u64, node: u64) -> bool {
        exists|index: int| #[trigger] self.pool_has(key, index, node)
    }

    /// A child of the node was given to a node of this frame.
    pub open spec fn gave_away(self, children: Seq<u64>) -> bool {
        exists|j: int|
            0 <= j < children.len() && self.has_live_parent(#[trigger] children[j])
    }

    pub open spec fn has_live_parent(self, node: u64) -> bool {
        self.nodes().contains_key(node) && (self.nodes()[node].parent matches Some(parent)
            && self.is_live(parent))
    }

    /// What a step within a frame leaves of a node.
    spec fn stays(self, node: u64, after: TaffyLayoutEngine) -> bool {
        &&& after.nodes().contains_key(node)
        &&& match self.nodes()[node].context {
            Some(context) => {
                &&& after.nodes()[node].context matches Some(fresh)
                &&& fresh.content_key == context.content_key
                &&& self.is_live(node) ==> fresh.measure == context.measure
            },
            None => after.nodes()[node].context is None,
        }
        &&& self.is_live(node) || !after.cut@.contains(node) ==> after.nodes()[node].children
            == self.nodes()[node].children
        &&& !after.is_live(node) ==> after.styles@[node] == self.styles@[node]
        &&& self.has_live_parent(node) ==> after.has_live_parent(node)
        &&& after.cut@.contains(node) && !self.cut@.contains(node) ==> after.gave_away(
            self.nodes()[node].children,
        )
    }

    /// What a step within a frame leaves of an engine.
    spec fn follows(self, after: TaffyLayoutEngine) -> bool {
        &&& after.retain == self.retain
        &&& self.live@.len() <= after.live@.len()
        &&& forall|i: int|
            0 <= i < self.live@.len() ==> #[trigger] after.live@[i] == self.live@[i]
        &&& forall|node: u64| #[trigger]
            self.nodes().contains_key(node) ==> self.stays(node, after)
        &&& forall|node: u64| #[trigger] self.cut@.contains(node) ==> after.cut@.contains(node)
        &&& forall|key: u64, node: u64| #[trigger]
            after.waits_under(key, node) ==> self.waits_under(key, node)
        &&& forall|key: u64, node: u64| #[trigger]
            self.waits_under(key, node) && !after.is_live(node) ==> after.waits_under(key, node)
    }

    proof fn lemma_live_stays(self, after: TaffyLayoutEngine, node: u64)
        requires
            self.is_live(node),
            self.live@.len() <= after.live@.len(),
            forall|i: int|
                0 <= i < self.live@.len() ==> #[trigger] after.live@[i] == self.live@[i],
        ensures
            after.is_live(node),
    {
        let i = choose|i: int| 0 <= i < self.live@.len() && (#[trigger] self.live@[i]).1 == node;
        assert(after.live@[i].1 == node);
    }

    proof fn lemma_step_went_on(self, after: TaffyLayoutEngine)
        requires
            self.went_on(after),
        ensures
            self.follows(after),
    {
        assert forall|key: u64, index: int, node: u64| #[trigger] after.pool_has(key, index, node)
            == self.pool_has(key, index, node) by {}
        assert forall|key: u64, node: u64| #[trigger] after.waits_under(key, node)
            == self.waits_under(key, node) by {
            if after.waits_under(key, node) {
                let i = choose|i: int| after.pool_has(key, i, node);
                assert(self.pool_has(key, i, node));
            }
            if self.waits_under(key, node) {
                let i = choose|i: int| self.pool_has(key, i, node);
                assert(after.pool_has(key, i, node));
            }
        }
        assert forall|node: u64| #[trigger] self.nodes().contains_key(node) implies self.stays(
            node,
            after,
        ) by {
            assert(after.nodes().dom().contains(node));
            assert(forall|n: u64| self.is_live(n) == after.is_live(n));
        }
    }

    proof fn lemma_step_kept(self, key: u64, index: int, id: u64, after: TaffyLayoutEngine)
        requires
            self.wf(),
            self.retain,
            self.kept(key, index, id, after),
            self.same_but_measure(id, after),
            forall|k: u64, i: int, node: u64| #[trigger]
                self.pool_has(k, i, node) && node != id ==> after.waits_under(k, node),
        ensures
            self.follows(after),
    {
        assert(self.pool_has(key, index, id));
        assert(!self.is_live(id));
        assert forall|k: u64, node: u64| #[trigger] after.waits_under(k, node) implies
            self.waits_under(k, node) by {
            let i = choose|i: int| after.pool_has(k, i, node);
            assert(after.pool@.dom().contains(k));
            if k == key {
                let list = self.pool@[key]@;
                assert(swap_removed(list, index)[i] == node);
                if i == index {
                    assert(self.pool_has(k, list.len() - 1, node));
                } else {
                    assert(self.pool_has(k, i, node));
                }
            } else {
                assert(after.pool@[k] == self.pool@[k]);
                assert(self.pool_has(k, i, node));
            }
        }
        assert(after.live@[after.live@.len() - 1].1 == id);
        assert forall|k: u64, node: u64| #[trigger]
            self.waits_under(k, node) && !after.is_live(node) implies after.waits_under(k, node) by {
            let i = choose|i: int| self.pool_has(k, i, node);
            assert(self.pool_has(k, i, node) && node != id);
        }
        assert forall|node: u64| #[trigger] self.nodes().contains_key(node) implies self.stays(
            node,
            after,
        ) by {
            assert(after.nodes().dom().contains(node));
            if self.has_live_parent(node) {
                self.lemma_live_stays(after, self.nodes()[node].parent->0);
            }
        }
    }

    proof fn lemma_step_created(
        self,
        key: u64,
        style: TaffyStyle,
        children: Seq<u64>,
        context: Option<NodeContext>,
        id: u64,
        after: TaffyLayoutEngine,
    )
        requires
            self.wf(),
            self.retain,
            self.adoptable(children),
            self.created(key, style, children, context, id, after),
        ensures
            self.follows(after),
    {
        let nodes = self.nodes();
        assert forall|k: u64, index: int, node: u64| #[trigger] after.pool_has(k, index, node)
            == self.pool_has(k, index, node) by {}
        assert forall|k: u64, node: u64| #[trigger] after.waits_under(k, node)
            == self.waits_under(k, node) by {
            if after.waits_under(k, node) {
                let i = choose|i: int| after.pool_has(k, i, node);
                assert(self.pool_has(k, i, node));
            }
            if self.waits_under(k, node) {
                let i = choose|i: int| self.pool_has(k, i, node);
                assert(after.pool_has(k, i, node));
            }
        }
        assert forall|i: int| 0 <= i < children.len() implies nodes.contains_key(
            #[trigger] children[i],
        ) by {
            assert(self.is_current(children[i]));
        }
        assert(after.live@[after.live@.len() - 1].1 == id);
        assert(after.is_live(id));
        lemma_orphans_stay(nodes, self.rank@, children);
        assert forall|node: u64| #[trigger] self.nodes().contains_key(node) implies self.stays(
            node,
            after,
        ) by {
            let freed = all_orphaned(nodes, children);
            assert(freed.dom().contains(node));
            assert(self.styles@.insert(id, style)[node] == self.styles@[node]);
            if !self.has_child_among(node, children) {
                lemma_all_orphaned(nodes, self.rank@, children, node);
            } else {
                let i = choose|i: int|
                    0 <= i < children.len() && nodes[#[trigger] children[i]].parent == Some(node);
                let child = children[i];
                assert(placed(nodes, self.rank@, child));
                let own = nodes[node].children;
                let j = choose|j: int| 0 <= j < own.len() && own[j] == child;
                assert(children.contains(child));
                assert(freed.dom().contains(child));
                assert(after.nodes()[child].parent == Some(id));
                assert(after.has_live_parent(own[j]));
                assert(self.is_current(children[i]));
                assert(!self.is_current(node));
            }
            if self.has_live_parent(node) {
                let parent = nodes[node].parent->0;
                self.lemma_live_stays(after, parent);
                assert(placed(nodes, self.rank@, node));
                assert(self.is_current(parent));
                if children.contains(node) {
                    let i = choose|i: int| 0 <= i < children.len() && children[i] == node;
                    assert(!self.is_current(nodes[children[i]].parent->0));
                }
                assert forall|i: int| 0 <= i < children.len() implies nodes[
                #[trigger] children[i]].parent != Some(parent) by {}
                lemma_all_orphaned(nodes, self.rank@, children, parent);
                assert(freed[node].parent == nodes[node].parent);
            }
        }
    }

    proof fn lemma_step(self, after: TaffyLayoutEngine)
        requires
            self.wf(),
            self.retain,
            self.continued(after),
        ensures
            self.follows(after),
    {
        if self.went_on(after) {
            self.lemma_step_went_on(after);
        } else {
            let id = choose|id: u64| #[trigger] self.handed_out(id, after);
            self.lemma_kept_or_created(id, after);
            if self.same_but_measure(id, after) && exists|key: u64, index: int| #[trigger]
                self.kept(key, index, id, after) {
                let (key, index) = choose|key: u64, index: int| #[trigger]
                    self.kept(key, index, id, after);
                assert forall|k: u64, i: int, node: u64| #[trigger]
                    self.pool_has(k, i, node) && node != id implies after.waits_under(k, node) by {
                    law_requests_leave_the_pool(self, id, after, k, i, node);
                }
                self.lemma_step_kept(key, index, id, after);
            } else {
                let (key, style, children, context) = choose|
                    key: u64,
                    style: TaffyStyle,
                    children: Seq<u64>,
                    context: Option<NodeContext>,
                |
                    self.adoptable(children) && #[trigger] self.created(
                        key,
                        style,
                        children,
                        context,
                        id,
                        after,
                    );
                self.lemma_step_created(key, style, children, context, id, after);
            }
        }
    }
}

// ---- frames ------------------------------------------------------------------------------------

/// The states of an engine within one frame in which nodes are kept.
pub open spec fn frame(history: Seq<TaffyLayoutEngine>) -> bool {
    &&& history.len() > 0
    &&& history[0].retain
    &&& forall|i: int| 0 <= i < history.len() ==> (#[trigger] history[i]).wf()
    &&& forall|i: int|
        0 <= i < history.len() - 1 ==> (#[trigger] history[i]).continued(history[i + 1])
}

/// What two stretches of a frame leave, both together leave.
proof fn lemma_follows(a: TaffyLayoutEngine, b: TaffyLayoutEngine, c: TaffyLayoutEngine)
    requires
        a.follows(b),
        b.follows(c),
    ensures
        a.follows(c),
{
    assert forall|i: int| 0 <= i < a.live@.len() implies #[trigger] c.live@[i] == a.live@[i] by {
        assert(b.live@[i] == a.live@[i]);
    }
    assert forall|node: u64| #[trigger] a.nodes().contains_key(node) implies a.stays(node, c) by {
        assert(a.stays(node, b));
        assert(b.nodes().contains_key(node));
        assert(b.stays(node, c));
        if a.is_live(node) {
            a.lemma_live_stays(b, node);
        }
        if b.is_live(node) {
            b.lemma_live_stays(c, node);
        }
        if c.cut@.contains(node) && !a.cut@.contains(node) && b.cut@.contains(node) {
            let children = a.nodes()[node].children;
            let j = choose|j: int|
                0 <= j < children.len() && b.has_live_parent(#[trigger] children[j]);
            assert(b.nodes().contains_key(children[j]));
            assert(c.has_live_parent(children[j]));
        }
    }
    assert forall|key: u64, node: u64| #[trigger]
        a.waits_under(key, node) && !c.is_live(node) implies c.waits_under(key, node) by {
        if b.is_live(node) {
            b.lemma_live_stays(c, node);
        }
        assert(b.waits_under(key, node));
    }
    assert forall|key: u64, node: u64| #[trigger] c.waits_under(key, node) implies a.waits_under(
        key,
        node,
    ) by {
        assert(b.waits_under(key, node));
    }
}

proof fn lemma_frame(history: Seq<TaffyLayoutEngine>, from: int, to: int)
    requires
        frame(history),
        0 <= from <= to < history.len(),
    ensures
        history[to].retain,
        history[from].follows(history[to]),
    decreases to,
{
    if to > 0 {
        if from < to {
            lemma_frame(history, from, to - 1);
        } else {
            lemma_frame(history, 0, to - 1);
        }
        assert(history[to - 1].continued(history[to - 1 + 1]));
        history[to - 1].lemma_step(history[to]);
        if from < to {
            lemma_follows(history[from], history[to - 1], history[to]);
        }
    }
}

/// No node is handed out twice in a frame.
pub proof fn law_a_frame_hands_a_node_out_once(
    history: Seq<TaffyLayoutEngine>,
    first: int,
    first_id: u64,
    second: int,
    second_id: u64,
)
    requires
        frame(history),
        0 <= first < second < history.len() - 1,
        history[first].handed_out(first_id, history[first + 1]),
        history[second].handed_out(second_id, history[second + 1]),
    ensures
        first_id != second_id,
{
    lemma_frame(history, 0, first);
    lemma_frame(history, first + 1, second);
    law_nodes_are_handed_out_once(history[first], first_id, history[first + 1]);
    law_nodes_are_handed_out_once(history[second], second_id, history[second + 1]);
    history[first + 1].lemma_live_stays(history[second], first_id);
}

/// Within a frame a leaf that was handed out stays with the measure function that it was given.
pub proof fn law_a_leaf_keeps_its_measure_function(
    history: Seq<TaffyLayoutEngine>,
    from: int,
    to: int,
    id: u64,
)
    requires
        frame(history),
        0 <= from <= to < history.len(),
        history[from].is_live(id),
        history[from].nodes()[id].context is Some,
    ensures
        history[to].nodes()[id].context is Some,
        history[to].nodes()[id].context->0.measure == history[from].nodes()[id].context->0.measure,
{
    lemma_frame(history, 0, from);
    lemma_frame(history, from, to);
    let i = choose|i: int|
        0 <= i < history[from].live@.len() && (#[trigger] history[from].live@[i]).1 == id;
    assert(history[from].nodes().contains_key(history[from].live@[i].1));
    assert(history[from].stays(id, history[to]));
}

/// Layouts, bounds that are asked for, and nodes of this frame that are stretched leave the nodes
/// and the pool as they are.
pub proof fn law_layouts_leave_the_nodes(
    engine: TaffyLayoutEngine,
    id: u64,
    after: TaffyLayoutEngine,
)
    requires
        engine.wf(),
        engine.is_current(id),
        engine.retain,
        after.styles@ == engine.styles@.insert(id, after.styles@[id]),
        after == (TaffyLayoutEngine {
            styles: after.styles,
            unstyled: after.unstyled,
            absolute_layout_bounds: after.absolute_layout_bounds,
            absolute_outer_origins: after.absolute_outer_origins,
            computed_layouts: after.computed_layouts,
            pending_remeasure: after.pending_remeasure,
            reuse_counts: after.reuse_counts,
            ..engine
        }),
    ensures
        engine.went_on(after),
{
}

// ---- from one frame to the next ----------------------------------------------------------------

/// Every node that the list of a key holds is in the list of the frame under that key.
proof fn lemma_from_bucket(live: Seq<(u64, u64)>, key: u64, index: int)
    requires
        0 <= index < bucket_of(live, key).len(),
    ensures
        exists|i: int| 0 <= i < live.len() && #[trigger] live[i] == (
            key,
            bucket_of(live, key)[index],
        ),
    decreases live.len(),
{
    let shorter = live.drop_last();
    let before = bucket_of(shorter, key);
    if index < before.len() {
        lemma_from_bucket(shorter, key, index);
        let i = choose|i: int|
            0 <= i < shorter.len() && #[trigger] shorter[i] == (key, before[index]);
        assert(live[i] == shorter[i]);
    } else {
        assert(live[live.len() - 1] == (key, bucket_of(live, key)[index]));
    }
}

impl TaffyLayoutEngine {
    /// At the end of a frame a node of it, under a key, looks as it was requested, and no other node
    /// of the frame under that key does.
    pub open spec fn only_one_like(
        self,
        key: u64,
        id: u64,
        style: TaffyStyle,
        children: Seq<u64>,
        content: Option<u64>,
    ) -> bool {
        &&& exists|i: int| 0 <= i < self.live@.len() && #[trigger] self.live@[i] == (key, id)
        &&& self.looks_like(id, style, children, content)
        &&& self.no_other_like(key, id, style, children, content)
    }

    /// No other node of the frame under a key looks like this.
    pub open spec fn no_other_like(
        self,
        key: u64,
        id: u64,
        style: TaffyStyle,
        children: Seq<u64>,
        content: Option<u64>,
    ) -> bool {
        forall|i: int|
            0 <= i < self.live@.len() && (#[trigger] self.live@[i]).0 == key && self.live@[i].1
                != id ==> !self.looks_like(self.live@[i].1, style, children, content)
    }
}

/// Such a node is the one that can be kept in the next frame, until it is handed out.
proof fn lemma_found_again(
    last: TaffyLayoutEngine,
    next: Seq<TaffyLayoutEngine>,
    key: u64,
    id: u64,
    style: TaffyStyle,
    children: Seq<u64>,
    content: Option<u64>,
)
    requires
        last.wf(),
        last.retain,
        key != 0,
        last.only_one_like(key, id, style, children, content),
        last.cleared(next[0]),
        frame(next),
        !next.last().is_live(id),
        next.last().adoptable(children),
    ensures
        next.last().reusable(key, style, children, content) is Some,
        next.last().pool@[key]@[next.last().reusable(key, style, children, content)->0] == id,
{
    let begun = next[0];
    let now = next.last();
    lemma_frame(next, 0, next.len() - 1);
    let at = choose|i: int| 0 <= i < last.live@.len() && #[trigger] last.live@[i] == (key, id);
    law_nodes_of_a_frame_outlive_it(last, begun, at);
    assert(begun.waits_under(key, id));
    assert(now.waits_under(key, id));
    assert(begun.stays(id, now));
    assert(!now.cut@.contains(id)) by {
        if now.cut@.contains(id) {
            let j = choose|j: int|
                0 <= j < children.len() && now.has_live_parent(#[trigger] children[j]);
            assert(now.is_current(children[j]));
            let parent = now.nodes()[children[j]].parent->0;
            assert(placed(now.nodes(), now.rank@, children[j]));
            assert(now.is_current(parent));
        }
    }
    assert(now.matches(id, style, children, content));
    let index = choose|index: int| now.pool_has(key, index, id);
    now.lemma_match_is_found(now.pool@[key]@, style, children, content, index);
    now.lemma_reusable_matches(now.pool@[key]@, style, children, content);
    let found = now.reusable(key, style, children, content)->0;
    let other = now.pool@[key]@[found];
    if other != id {
        assert(now.pool_has(key, found, other));
        assert(now.waits_under(key, other));
        assert(begun.waits_under(key, other));
        let place = choose|place: int| begun.pool_has(key, place, other);
        assert(begun.pool@.contains_key(key));
        lemma_from_bucket(last.live@, key, place);
        let i = choose|i: int| 0 <= i < last.live@.len() && #[trigger] last.live@[i] == (key, other);
        assert(last.live@[i].1 != id);
        law_nodes_of_a_frame_outlive_it(last, begun, i);
        assert(begun.stays(other, now));
        assert(!now.is_live(other)) by {
            assert(now.pool_has(key, found, other));
        }
        assert(last.looks_like(other, style, children, content));
    }
}

/// The frame after a node was requested in it, at `at`: its style was not changed since.
pub open spec fn style_stays(history: Seq<TaffyLayoutEngine>, at: int, id: u64) -> bool {
    forall|i: int|
        at < i < history.len() ==> (#[trigger] history[i]).styles@[id] == history[at
            + 1].styles@[id]
}

/// A node that looked like something when it was handed out does so at the end of the frame.
proof fn lemma_looks_the_same(
    history: Seq<TaffyLayoutEngine>,
    at: int,
    key: u64,
    id: u64,
    style: TaffyStyle,
    children: Seq<u64>,
    content: Option<u64>,
)
    requires
        frame(history),
        0 <= at < history.len() - 1,
        history[at + 1].live@.len() > 0,
        history[at + 1].live@.last() == (key, id),
        history[at + 1].looks_like(id, style, children, content),
        style_stays(history, at, id),
    ensures
        history.last().looks_like(id, style, children, content),
        exists|i: int|
            0 <= i < history.last().live@.len() && #[trigger] history.last().live@[i] == (key, id),
        history.last().retain,
{
    let then = history[at + 1];
    lemma_frame(history, at + 1, history.len() - 1);
    lemma_frame(history, 0, at + 1);
    let i = then.live@.len() - 1;
    assert(then.live@[i] == (key, id));
    assert(then.nodes().contains_key(then.live@[i].1));
    assert(then.is_live(id));
    assert(then.stays(id, history.last()));
    assert(history.last().live@[i] == (key, id));
    assert(history.last().styles@[id] == then.styles@[id]);
}

/// A node that was handed out is not handed out again in the frame, for whatever request: not even
/// for the same one, and not for the same children either.
proof fn lemma_not_again(history: Seq<TaffyLayoutEngine>, at: int, id: u64)
    requires
        frame(history),
        history[0].is_live(id),
        0 <= at < history.len(),
    ensures
        forall|style: TaffyStyle, children: Seq<u64>, other: u64, after: TaffyLayoutEngine|
         #[trigger]
            history[at].requested(style, children, other, after) ==> other != id,
        forall|
            style: TaffyStyle,
            content_key: Option<u64>,
            measure: u64,
            other: u64,
            after: TaffyLayoutEngine,
        | #[trigger]
            history[at].requested_measured(style, content_key, measure, other, after) ==> other
                != id,
{
    lemma_frame(history, 0, at);
    let engine = history[at];
    history[0].lemma_live_stays(engine, id);
    let i = choose|i: int| 0 <= i < engine.live@.len() && (#[trigger] engine.live@[i]).1 == id;
    assert(engine.nodes().contains_key(engine.live@[i].1));
    assert forall|key: u64, index: int| !(#[trigger] engine.pool_has(key, index, id)) by {
        assert(engine.is_live(id));
    }
}

/// A node that is requested with the style and the children with which one of the frame before was
/// requested is that node, with everything that the solver found for it, where no other node of that
/// frame under the same key is like it, its style was not changed, and it was not handed out again
/// yet. From then on every request of the frame, even the same, is given another node; and before, a
/// request with another style or other children was not given this one.
///
/// `frame_before` is the frame before, in which the node was requested at `at`, `frame_now` is this
/// frame until now, and `frame_later` what comes of it after the request. A style that holds a NaN is left out: it is not equal to itself.
pub proof fn law_node_is_the_same_in_the_next_frame(
    frame_before: Seq<TaffyLayoutEngine>,
    at: int,
    style: TaffyStyle,
    children: Seq<u64>,
    id: u64,
    frame_now: Seq<TaffyLayoutEngine>,
    new_id: u64,
    frame_later: Seq<TaffyLayoutEngine>,
)
    requires
        frame(frame_before),
        0 <= at < frame_before.len() - 1,
        style.same(style),
        frame_before[at].requested(style, children, id, frame_before[at + 1]),
        style_stays(frame_before, at, id),
        frame_before.last().no_other_like(key_of(style, children, 0), id, style, children, None),
        frame_before.last().cleared(frame_now[0]),
        frame(frame_now),
        !frame_now.last().is_live(id),
        frame_now.last().adoptable(children),
        frame_now.last().requested(style, children, new_id, frame_later[0]),
        frame(frame_later),
    ensures
        new_id == id,
        frame_later[0].taffy == frame_now.last().taffy,
        forall|
            i: int,
            other_style: TaffyStyle,
            other_children: Seq<u64>,
            other: u64,
            then: TaffyLayoutEngine,
        |
            0 <= i < frame_later.len() && #[trigger] frame_later[i].requested(
                other_style,
                other_children,
                other,
                then,
            ) ==> other != id,
        forall|
            other_style: TaffyStyle,
            other_children: Seq<u64>,
            other: u64,
            then: TaffyLayoutEngine,
        | #[trigger]
            frame_now.last().requested(other_style, other_children, other, then) && other == id
                ==> other_children == children && frame_now.last().styles@[id].same(other_style),
{
    let key = key_of(style, children, 0);
    law_keys_are_not_zero(style, children, 0);
    lemma_frame(frame_before, 0, at);
    let engine = frame_before[at];
    let then = frame_before[at + 1];
    if engine.reusable(key, style, children, None) is Some {
        engine.lemma_reusable_matches(engine.pool@[key]@, style, children, None);
    } else {
        assert(children.len() == 0 ==> children =~= Seq::empty());
    }
    assert(then.looks_like(id, style, children, None));
    assert(then.live@.last() == (key, id));
    lemma_looks_the_same(frame_before, at, key, id, style, children, None);
    lemma_found_again(frame_before.last(), frame_now, key, id, style, children, None);
    lemma_frame(frame_now, 0, frame_now.len() - 1);
    let now = frame_now.last();
    now.lemma_reusable_matches(now.pool@[key]@, style, children, None);
    let index = now.reusable(key, style, children, None)->0;
    assert(now.pool_has(key, index, id));
    assert(now.nodes().contains_key(id));
    let after = frame_later[0];
    assert(after.live@[after.live@.len() - 1].1 == id);
    assert forall|
        i: int,
        other_style: TaffyStyle,
        other_children: Seq<u64>,
        other: u64,
        then: TaffyLayoutEngine,
    |
        0 <= i < frame_later.len() && #[trigger] frame_later[i].requested(
            other_style,
            other_children,
            other,
            then,
        ) implies other != id by {
        lemma_not_again(frame_later, i, id);
    }
    assert forall|
        other_style: TaffyStyle,
        other_children: Seq<u64>,
        other: u64,
        then: TaffyLayoutEngine,
    | #[trigger]
        now.requested(other_style, other_children, other, then) && other == id implies
        other_children == children && now.styles@[id].same(other_style) by {
        law_a_node_is_kept_only_as_what_it_is(
            now,
            other_style,
            other_children,
            None,
            0,
            id,
            then,
        );
    }
}

/// The same of a measured leaf with a content key. It has the measure function that it is now
/// requested with and not the one of before, for the rest of the frame, and is to be measured with
/// what it was last measured with.
pub proof fn law_leaf_is_the_same_in_the_next_frame(
    frame_before: Seq<TaffyLayoutEngine>,
    at: int,
    style: TaffyStyle,
    content_key: u64,
    measure: u64,
    id: u64,
    frame_now: Seq<TaffyLayoutEngine>,
    new_measure: u64,
    new_id: u64,
    frame_later: Seq<TaffyLayoutEngine>,
)
    requires
        frame(frame_before),
        0 <= at < frame_before.len() - 1,
        style.same(style),
        frame_before[at].requested_measured(
            style,
            Some(content_key),
            measure,
            id,
            frame_before[at + 1],
        ),
        style_stays(frame_before, at, id),
        frame_before.last().no_other_like(
            key_of(style, Seq::empty(), content_key),
            id,
            style,
            Seq::empty(),
            Some(content_key),
        ),
        frame_before.last().cleared(frame_now[0]),
        frame(frame_now),
        !frame_now.last().is_live(id),
        frame_now.last().requested_measured(
            style,
            Some(content_key),
            new_measure,
            new_id,
            frame_later[0],
        ),
        frame(frame_later),
    ensures
        new_id == id,
        frame_now.last().nodes()[id].context is Some,
        forall|i: int|
            0 <= i < frame_later.len() ==> {
                &&& (#[trigger] frame_later[i]).nodes()[id].context matches Some(context)
                &&& context.measure == new_measure
            },
        forall|
            i: int,
            other_style: TaffyStyle,
            other_key: Option<u64>,
            other_measure: u64,
            other: u64,
            then: TaffyLayoutEngine,
        |
            0 <= i < frame_later.len() && #[trigger] frame_later[i].requested_measured(
                other_style,
                other_key,
                other_measure,
                other,
                then,
            ) ==> other != id,
        frame_later[0].nodes() == frame_now.last().nodes().insert(
            id,
            TreeNode {
                context: Some(
                    NodeContext {
                        measure: new_measure,
                        ..frame_now.last().nodes()[id].context->0
                    },
                ),
                ..frame_now.last().nodes()[id]
            },
        ),
{
    let none = Seq::<u64>::empty();
    let content = Some(content_key);
    let key = key_of(style, none, content_key);
    law_keys_are_not_zero(style, none, content_key);
    lemma_frame(frame_before, 0, at);
    let engine = frame_before[at];
    let then = frame_before[at + 1];
    if engine.reusable(key, style, none, content) is Some {
        engine.lemma_reusable_matches(engine.pool@[key]@, style, none, content);
    }
    assert(then.looks_like(id, style, none, content));
    assert(then.live@.last() == (key, id));
    lemma_looks_the_same(frame_before, at, key, id, style, none, content);
    lemma_found_again(frame_before.last(), frame_now, key, id, style, none, content);
    lemma_frame(frame_now, 0, frame_now.len() - 1);
    let now = frame_now.last();
    now.lemma_reusable_matches(now.pool@[key]@, style, none, content);
    let after = frame_later[0];
    assert(after.live@[after.live@.len() - 1].1 == id);
    assert(after.is_live(id));
    assert forall|i: int| 0 <= i < frame_later.len() implies {
        &&& (#[trigger] frame_later[i]).nodes()[id].context matches Some(context)
        &&& context.measure == new_measure
    } by {
        law_a_leaf_keeps_its_measure_function(frame_later, 0, i, id);
    }
    assert forall|
        i: int,
        other_style: TaffyStyle,
        other_key: Option<u64>,
        other_measure: u64,
        other: u64,
        then: TaffyLayoutEngine,
    |
        0 <= i < frame_later.len() && #[trigger] frame_later[i].requested_measured(
            other_style,
            other_key,
            other_measure,
            other,
            then,
        ) implies other != id by {
        lemma_not_again(frame_later, i, id);
    }
}

/// A measured leaf without a content key is always a new node: it is none of those of the frame
/// before.
pub proof fn law_leaf_without_content_is_new(
    frame_before: Seq<TaffyLayoutEngine>,
    node: u64,
    frame_now: Seq<TaffyLayoutEngine>,
    style: TaffyStyle,
    measure: u64,
    id: u64,
    after: TaffyLayoutEngine,
)
    requires
        frame(frame_before),
        frame_before.last().is_live(node),
        frame_before.last().cleared(frame_now[0]),
        frame(frame_now),
        frame_now.last().requested_measured(style, None, measure, id, after),
    ensures
        id != node,
{
    let last = frame_before.last();
    lemma_frame(frame_before, 0, frame_before.len() - 1);
    lemma_frame(frame_now, 0, frame_now.len() - 1);
    let i = choose|i: int| 0 <= i < last.live@.len() && (#[trigger] last.live@[i]).1 == node;
    law_nodes_of_a_frame_outlive_it(last, frame_now[0], i);
    assert(frame_now[0].stays(node, frame_now.last()));
}

/// A node is handed out again only for what it is: for a request with its style and its children,
/// and for a measured leaf with its content.
pub proof fn law_a_node_is_kept_only_as_what_it_is(
    engine: TaffyLayoutEngine,
    style: TaffyStyle,
    children: Seq<u64>,
    content_key: Option<u64>,
    measure: u64,
    id: u64,
    after: TaffyLayoutEngine,
)
    requires
        engine.nodes().contains_key(id),
    ensures
        engine.requested(style, children, id, after) ==> engine.looks_like(
            id,
            style,
            children,
            None,
        ),
        engine.requested_measured(style, content_key, measure, id, after) ==> content_key is Some
            && engine.looks_like(id, style, Seq::empty(), content_key),
{
    let key = key_of(style, children, 0);
    if engine.requested(style, children, id, after) {
        engine.lemma_reusable_matches(engine.pool@[key]@, style, children, None);
    }
    if engine.requested_measured(style, content_key, measure, id, after) {
        let leaf_key = key_of(style, Seq::empty(), content_key->0);
        engine.lemma_reusable_matches(
            engine.pool@[leaf_key]@,
            style,
            Seq::empty(),
            content_key,
        );
    }
}

/// A node that is handed out is what was asked for. Its style has, field by field, the values that were
/// requested: those of the request itself where it was created, and the same numbers where it was kept.
/// Its children are the requested ones, in order, and they are nobody else's. A leaf that is measured
/// has the measure function and the content that it was requested with, and no other node has any.
pub proof fn law_a_node_is_what_was_asked_for(
    engine: TaffyLayoutEngine,
    style: TaffyStyle,
    children: Seq<u64>,
    content_key: Option<u64>,
    measure: u64,
    id: u64,
    after: TaffyLayoutEngine,
)
    requires
        engine.wf(),
        engine.adoptable(children),
    ensures
        engine.requested(style, children, id, after) ==> {
            &&& after.styles@[id] == style || same_fields(after.styles@[id], style)
            &&& after.nodes().contains_key(id)
            &&& after.nodes()[id].children == children
            &&& after.nodes()[id].context is None
            &&& forall|i: int|
                0 <= i < children.len() ==> after.nodes()[#[trigger] children[i]].parent == Some(id)
            &&& after.live@ == engine.live@.push(after.live@.last())
            &&& after.live@.last().1 == id
        },
        engine.requested_measured(style, content_key, measure, id, after) ==> {
            &&& after.styles@[id] == style || same_fields(after.styles@[id], style)
            &&& after.nodes().contains_key(id)
            &&& after.nodes()[id].children.len() == 0
            &&& after.nodes()[id].context is Some
            &&& after.nodes()[id].context->0.measure == measure
            &&& after.nodes()[id].context->0.content_key == content_key
            &&& after.live@ == engine.live@.push(after.live@.last())
            &&& after.live@.last().1 == id
        },
{
    let key = key_of(style, children, 0);
    if engine.requested(style, children, id, after) {
        if engine.retain && engine.reusable(key, style, children, None) is Some {
            engine.lemma_reusable_matches(engine.pool@[key]@, style, children, None);
            law_equal_styles_have_equal_fields(engine.styles@[id], style);
            assert(engine.nodes().contains_key(id));
            assert(placed(engine.nodes(), engine.rank@, id));
        } else {
            assert forall|i: int| 0 <= i < children.len() implies engine.nodes().contains_key(
                #[trigger] children[i],
            ) by {
                assert(engine.is_current(children[i]));
            }
            lemma_orphans_stay(engine.nodes(), engine.rank@, children);
            assert forall|i: int| 0 <= i < children.len() implies after.nodes()[
            #[trigger] children[i]].parent == Some(id) by {
                assert(all_orphaned(engine.nodes(), children).dom().contains(children[i]));
                assert(children.contains(children[i]));
            }
        }
    }
    if engine.requested_measured(style, content_key, measure, id, after) {
        let leaf_key = key_of(style, Seq::empty(), content_key->0);
        if engine.retain && content_key is Some && engine.reusable(
            leaf_key,
            style,
            Seq::empty(),
            content_key,
        ) is Some {
            engine.lemma_reusable_matches(
                engine.pool@[leaf_key]@,
                style,
                Seq::empty(),
                content_key,
            );
            law_equal_styles_have_equal_fields(engine.styles@[id], style);
            assert(engine.nodes().contains_key(id));
        }
    }
}

/// A measured leaf that was requested with a content key is not handed out in the next frame for
/// another one, so a size that was found for the old content is never taken for the new.
pub proof fn law_other_content_is_another_leaf(
    frame_before: Seq<TaffyLayoutEngine>,
    at: int,
    style: TaffyStyle,
    content_key: u64,
    measure: u64,
    id: u64,
    frame_now: Seq<TaffyLayoutEngine>,
    new_style: TaffyStyle,
    new_content_key: Option<u64>,
    new_measure: u64,
    new_id: u64,
    after: TaffyLayoutEngine,
)
    requires
        frame(frame_before),
        0 <= at < frame_before.len() - 1,
        frame_before[at].requested_measured(
            style,
            Some(content_key),
            measure,
            id,
            frame_before[at + 1],
        ),
        frame_before.last().cleared(frame_now[0]),
        frame(frame_now),
        new_content_key != Some(content_key),
        frame_now.last().requested_measured(
            new_style,
            new_content_key,
            new_measure,
            new_id,
            after,
        ),
    ensures
        new_id != id,
{
    let none = Seq::<u64>::empty();
    let key = key_of(style, none, content_key);
    lemma_frame(frame_before, 0, at);
    lemma_frame(frame_before, 0, frame_before.len() - 1);
    lemma_frame(frame_before, at + 1, frame_before.len() - 1);
    lemma_frame(frame_now, 0, frame_now.len() - 1);
    let engine = frame_before[at];
    let then = frame_before[at + 1];
    let last = frame_before.last();
    let now = frame_now.last();
    if engine.reusable(key, style, none, Some(content_key)) is Some {
        engine.lemma_reusable_matches(engine.pool@[key]@, style, none, Some(content_key));
    }
    let i = then.live@.len() - 1;
    assert(then.live@[i].1 == id);
    assert(then.nodes().contains_key(then.live@[i].1));
    assert(then.stays(id, last));
    assert(last.live@[i].1 == id);
    law_nodes_of_a_frame_outlive_it(last, frame_now[0], i);
    assert(frame_now[0].stays(id, now));
    if new_id == id {
        law_a_node_is_kept_only_as_what_it_is(
            now,
            new_style,
            none,
            new_content_key,
            new_measure,
            id,
            after,
        );
    }
}

// ---- counts ------------------------------------------------------------------------------------

/// An engine and the counters, at one moment.
pub struct Moment {
    pub engine: TaffyLayoutEngine,
    pub stats: LayoutStats,
}

/// What happens between two moments.
pub enum Event {
    /// A request handed out this node.
    Request(u64),
    /// A frame ended.
    Clear,
    /// This node was laid out.
    Layout(LayoutId),
    /// Something that counts no nodes.
    Other,
}

pub open spec fn happened(before: Moment, event: Event, after: Moment) -> bool {
    match event {
        Event::Request(id) => {
            &&& before.engine.handed_out(id, after.engine)
            &&& after.stats == before.stats
        },
        Event::Clear => {
            &&& before.engine.cleared(after.engine)
            &&& after.stats == before.stats
        },
        Event::Layout(id) => {
            &&& before.engine.begun(id.0, before.stats.enabled, after.engine)
            &&& before.engine.counted(before.stats, after.stats)
        },
        Event::Other => {
            &&& after.engine.reuse_counts == before.engine.reuse_counts
            &&& after.stats.reuse == before.stats.reuse
            &&& after.stats.enabled == before.stats.enabled
        },
    }
}

/// How many of the first events are requests.
pub open spec fn requests(events: Seq<Event>, count: nat) -> nat
    decreases count,
{
    if count == 0 {
        0
    } else {
        requests(events, (count - 1) as nat) + if events[count - 1] is Request {
            1nat
        } else {
            0
        }
    }
}

/// How many of the first events are requests that handed out a node of an earlier frame.
pub open spec fn keeps(history: Seq<Moment>, events: Seq<Event>, count: nat) -> nat
    decreases count,
{
    if count == 0 {
        0
    } else {
        keeps(history, events, (count - 1) as nat) + match events[count - 1] {
            Event::Request(id) => if history[count - 1].engine.nodes().contains_key(id) {
                1nat
            } else {
                0
            },
            _ => 0,
        }
    }
}

proof fn lemma_counts(history: Seq<Moment>, events: Seq<Event>, count: nat)
    requires
        count <= events.len(),
        history.len() == events.len() + 1,
        forall|i: int| 0 <= i < history.len() ==> (#[trigger] history[i]).engine.wf(),
        forall|i: int|
            0 <= i < events.len() ==> happened(history[i], #[trigger] events[i], history[i + 1]),
        history[0].stats.enabled,
        history[0].engine.reuse_counts == (0u64, 0u64),
        history[0].stats.reuse == (0u64, 0u64),
        requests(events, count) <= u64::MAX,
    ensures
        history[count as int].stats.enabled,
        keeps(history, events, count) <= requests(events, count),
        history[count as int].stats.reuse.0 + history[count as int].engine.reuse_counts.0
            == requests(events, count) - keeps(history, events, count),
        history[count as int].stats.reuse.1 + history[count as int].engine.reuse_counts.1 == keeps(
            history,
            events,
            count,
        ),
    decreases count,
{
    if count > 0 {
        lemma_counts(history, events, (count - 1) as nat);
        let before = history[count - 1];
        let after = history[count as int];
        assert(happened(before, events[count - 1], history[count - 1 + 1]));
        if let Event::Request(id) = events[count - 1] {
            before.engine.lemma_kept_or_created(id, after.engine);
            if before.engine.nodes().contains_key(id) {
                let (key, index) = choose|key: u64, index: int| #[trigger]
                    before.engine.kept(key, index, id, after.engine);
            } else {
                assert forall|key: u64, index: int| !(#[trigger] before.engine.kept(
                    key,
                    index,
                    id,
                    after.engine,
                )) by {
                    if before.engine.pool_has(key, index, id) {
                        assert(before.engine.nodes().contains_key(id));
                    }
                }
            }
        }
    }
}

/// Once nodes were laid out after the last request, the counters of created and kept nodes tell all
/// requests apart: of `n` requests of which `k` kept a node, `n - k` created one. Nothing is left
/// uncounted.
pub proof fn law_counts_tell_kept_nodes_from_created_ones(
    history: Seq<Moment>,
    events: Seq<Event>,
)
    requires
        history.len() == events.len() + 1,
        forall|i: int| 0 <= i < history.len() ==> (#[trigger] history[i]).engine.wf(),
        forall|i: int|
            0 <= i < events.len() ==> happened(history[i], #[trigger] events[i], history[i + 1]),
        history[0].stats.enabled,
        history[0].engine.reuse_counts == (0u64, 0u64),
        history[0].stats.reuse == (0u64, 0u64),
        events.len() > 0,
        events.last() is Layout,
        requests(events, events.len()) <= u64::MAX,
    ensures
        history.last().stats.reuse.0 == requests(events, events.len()) - keeps(
            history,
            events,
            events.len(),
        ),
        history.last().stats.reuse.1 == keeps(history, events, events.len()),
        history.last().engine.reuse_counts == (0u64, 0u64),
{
    let count = events.len();
    lemma_counts(history, events, count);
    lemma_counts(history, events, (count - 1) as nat);
    assert(happened(history[count - 1], events[count - 1], history[count - 1 + 1]));
}

} // verus!
