//! What holds of frames of layout.

use crate::layout::engine::{swap_removed, TaffyLayoutEngine};
use crate::layout::forest::placed;
use crate::layout::key::key_of;
use crate::layout::request::{all_orphaned, lemma_all_orphaned, lemma_orphans_stay};
use crate::layout::sweep::{bucket_of, has_key, outside};
use crate::layout::tree::{adopted, NodeContext};
use crate::style::TaffyStyle;
use vstd::prelude::*;

verus! {

impl TaffyLayoutEngine {
    /// A list with a candidate that matches has a first one.
    pub(crate) proof fn lemma_match_is_found(
        self,
        bucket: Seq<u64>,
        style: TaffyStyle,
        children: Seq<u64>,
        content: Option<u64>,
        index: int,
    )
        requires
            0 <= index < bucket.len(),
            self.matches(bucket[index], style, children, content),
        ensures
            self.first_match(bucket, style, children, content) is Some,
        decreases bucket.len(),
    {
        if index < bucket.len() - 1 {
            assert(bucket.drop_last()[index] == bucket[index]);
            self.lemma_match_is_found(bucket.drop_last(), style, children, content, index);
        }
    }
}

/// A node that is requested with the style and the children of one of the frame before is such a
/// node: nothing in the tree changes, so everything that the solver found is still valid.
pub proof fn law_matching_node_is_kept(
    engine: TaffyLayoutEngine,
    style: TaffyStyle,
    children: Seq<u64>,
    candidate: u64,
    index: int,
    id: u64,
    after: TaffyLayoutEngine,
)
    requires
        engine.wf(),
        engine.retain,
        engine.pool_has(key_of(style, children, 0), index, candidate),
        engine.matches(candidate, style, children, None),
        engine.requested(style, children, id, after),
    ensures
        engine.is_pooled(id),
        engine.matches(id, style, children, None),
        after.taffy == engine.taffy,
        after.styles == engine.styles,
        after.reuse_counts.0 == engine.reuse_counts.0,
{
    let key = key_of(style, children, 0);
    engine.lemma_match_is_found(engine.pool@[key]@, style, children, None, index);
    engine.lemma_reusable_matches(engine.pool@[key]@, style, children, None);
}

/// So is a measured leaf that is requested with the style and the content of one of the frame
/// before. It has the measure function of this frame, and is to be measured as it was last.
pub proof fn law_matching_leaf_is_kept(
    engine: TaffyLayoutEngine,
    style: TaffyStyle,
    content_key: u64,
    measure: u64,
    candidate: u64,
    index: int,
    id: u64,
    after: TaffyLayoutEngine,
)
    requires
        engine.wf(),
        engine.retain,
        engine.pool_has(key_of(style, Seq::empty(), content_key), index, candidate),
        engine.matches(candidate, style, Seq::empty(), Some(content_key)),
        engine.requested_measured(style, Some(content_key), measure, id, after),
    ensures
        engine.is_pooled(id),
        engine.matches(id, style, Seq::empty(), Some(content_key)),
        after.nodes()[id].context == Some(
            NodeContext { measure, ..engine.nodes()[id].context->0 },
        ),
        forall|node: u64| node != id ==> after.nodes()[node] == engine.nodes()[node],
        after.pending_remeasure@.contains(id),
        after.styles == engine.styles,
        after.reuse_counts.0 == engine.reuse_counts.0,
{
    let key = key_of(style, Seq::empty(), content_key);
    engine.lemma_match_is_found(engine.pool@[key]@, style, Seq::empty(), Some(content_key), index);
    engine.lemma_reusable_matches(engine.pool@[key]@, style, Seq::empty(), Some(content_key));
    assert(after.pending_remeasure@[after.pending_remeasure@.len() - 1] == id);
}

/// Where nothing is kept, and for a leaf without a content key, every request makes a node.
pub proof fn law_nothing_is_kept_unless_asked(
    engine: TaffyLayoutEngine,
    style: TaffyStyle,
    children: Seq<u64>,
    measure: u64,
    id: u64,
    after: TaffyLayoutEngine,
)
    ensures
        !engine.retain && engine.requested(style, children, id, after)
            ==> !engine.nodes().contains_key(id),
        engine.requested_measured(style, None, measure, id, after) ==> !engine.nodes().contains_key(
            id,
        ),
{
}

impl TaffyLayoutEngine {
    /// A request, of whatever kind, made this of an engine and handed out a node.
    pub open spec fn handed_out(self, id: u64, after: TaffyLayoutEngine) -> bool {
        ||| exists|style: TaffyStyle, children: Seq<u64>|
            self.adoptable(children) && #[trigger] self.requested(style, children, id, after)
        ||| exists|style: TaffyStyle, content_key: Option<u64>, measure: u64| #[trigger]
            self.requested_measured(style, content_key, measure, id, after)
    }

    /// The nodes are as they were, but for the measure function of one of them.
    pub open spec fn same_but_measure(self, id: u64, after: TaffyLayoutEngine) -> bool {
        &&& after.nodes().dom() == self.nodes().dom()
        &&& forall|node: u64| node != id ==> #[trigger] after.nodes()[node] == self.nodes()[node]
        &&& after.nodes()[id].children == self.nodes()[id].children
        &&& after.nodes()[id].parent == self.nodes()[id].parent
        &&& match self.nodes()[id].context {
            Some(context) => {
                &&& after.nodes()[id].context matches Some(fresh)
                &&& fresh == NodeContext { measure: fresh.measure, ..context }
            },
            None => after.nodes()[id].context is None,
        }
    }

    /// Every request keeps a node of the pool or creates one.
    pub(crate) proof fn lemma_kept_or_created(self, id: u64, after: TaffyLayoutEngine)
        requires
            self.wf(),
            self.handed_out(id, after),
        ensures
            self.retain && (exists|key: u64, index: int| #[trigger]
                self.kept(key, index, id, after)) && self.same_but_measure(id, after) || (exists|
                key: u64,
                style: TaffyStyle,
                children: Seq<u64>,
                context: Option<NodeContext>,
            |
                self.adoptable(children) && #[trigger] self.created(
                    key,
                    style,
                    children,
                    context,
                    id,
                    after,
                )),
    {
        if exists|style: TaffyStyle, children: Seq<u64>|
            self.adoptable(children) && #[trigger] self.requested(style, children, id, after) {
            let (style, children) = choose|style: TaffyStyle, children: Seq<u64>|
                self.adoptable(children) && #[trigger] self.requested(style, children, id, after);
            let key = key_of(style, children, 0);
            if self.retain && self.reusable(key, style, children, None) is Some {
                let index = self.reusable(key, style, children, None)->0;
                assert(self.kept(key, index, id, after));
            } else {
                assert(self.created(if self.retain {
                    key
                } else {
                    0
                }, style, children, None, id, after));
            }
        } else {
            let (style, content_key, measure) = choose|
                style: TaffyStyle,
                content_key: Option<u64>,
                measure: u64,
            | #[trigger]
                self.requested_measured(style, content_key, measure, id, after);
            let keeps = self.retain && content_key is Some;
            let key = if keeps {
                key_of(style, Seq::empty(), content_key->0)
            } else {
                0
            };
            let context = Some(NodeContext { measure, content_key, last_args: None });
            if keeps && self.reusable(key, style, Seq::empty(), content_key) is Some {
                let index = self.reusable(key, style, Seq::empty(), content_key)->0;
                assert(self.kept(key, index, id, after));
                self.lemma_reusable_matches(
                    self.pool@[key]@,
                    style,
                    Seq::empty(),
                    content_key,
                );
                assert(self.nodes().contains_key(id));
                assert(after.nodes().dom() =~= self.nodes().dom());
            } else {
                assert(self.adoptable(Seq::empty()));
                assert(self.created(key, style, Seq::empty(), context, id, after));
            }
        }
    }
}

/// No node is handed out twice in a frame.
pub proof fn law_nodes_are_handed_out_once(
    engine: TaffyLayoutEngine,
    id: u64,
    after: TaffyLayoutEngine,
)
    requires
        engine.wf(),
        engine.retain,
        engine.handed_out(id, after),
    ensures
        !engine.is_live(id),
        after.is_live(id),
{
    engine.lemma_kept_or_created(id, after);
    assert(after.live@[after.live@.len() - 1].1 == id);
    if engine.is_live(id) {
        let i = choose|i: int| 0 <= i < engine.live@.len() && engine.live@[i].1 == id;
        assert(engine.nodes().contains_key(engine.live@[i].1));
    }
}

/// A request leaves the other nodes of the pool there. What one of them matched it still matches,
/// unless a child of it was given to another node.
pub proof fn law_requests_leave_the_pool(
    engine: TaffyLayoutEngine,
    id: u64,
    after: TaffyLayoutEngine,
    key: u64,
    index: int,
    node: u64,
)
    requires
        engine.wf(),
        engine.handed_out(id, after),
        engine.pool_has(key, index, node),
        node != id,
    ensures
        exists|i: int| after.pool_has(key, i, node),
        after.styles@[node] == engine.styles@[node],
        after.nodes()[node].context == engine.nodes()[node].context,
        (after.nodes()[node].children == engine.nodes()[node].children && after.cut@.contains(node)
            == engine.cut@.contains(node)) || (exists|child: u64|
            engine.nodes()[child].parent == Some(node) && #[trigger] after.nodes()[child].parent
                == Some(id)),
{
    engine.lemma_kept_or_created(id, after);
    if engine.same_but_measure(id, after) && exists|own: u64, taken: int| #[trigger]
        engine.kept(own, taken, id, after) {
        let (own, taken) = choose|own: u64, taken: int| #[trigger]
            engine.kept(own, taken, id, after);
        assert(after.pool@.dom().contains(key));
        if key == own {
            let list = engine.pool@[key]@;
            if index == list.len() - 1 {
                assert(engine.pool_has(own, taken, id));
                assert(taken != index);
                assert(after.pool_has(key, taken, node));
            } else {
                assert(swap_removed(list, taken)[index] == node);
                assert(after.pool_has(key, index, node));
            }
        } else {
            assert(after.pool@[key] == engine.pool@[key]);
            assert(after.pool_has(key, index, node));
        }
    } else {
        let (own, style, children, context) = choose|
            own: u64,
            style: TaffyStyle,
            children: Seq<u64>,
            context: Option<NodeContext>,
        |
            engine.adoptable(children) && #[trigger] engine.created(
                own,
                style,
                children,
                context,
                id,
                after,
            );
        assert(after.pool_has(key, index, node));
        assert(engine.nodes().contains_key(node));
        lemma_adoption_leaves(engine, children, id, node, after);
    }
}

/// Giving children to a new node leaves the others as they are, but for parents that lose some.
proof fn lemma_adoption_leaves(
    engine: TaffyLayoutEngine,
    children: Seq<u64>,
    id: u64,
    node: u64,
    after: TaffyLayoutEngine,
)
    requires
        engine.wf(),
        engine.adoptable(children),
        engine.nodes().contains_key(node),
        node != id,
        !engine.nodes().contains_key(id),
        children.len() > 0 ==> after.nodes() == adopted(
            all_orphaned(engine.nodes(), children),
            id,
            children,
        ),
        children.len() == 0 ==> after.nodes()[node] == engine.nodes()[node],
    ensures
        after.nodes()[node].context == engine.nodes()[node].context,
        (after.nodes()[node].children == engine.nodes()[node].children && !engine.has_child_among(
            node,
            children,
        )) || (exists|child: u64|
            engine.nodes()[child].parent == Some(node) && #[trigger] after.nodes()[child].parent
                == Some(id)),
{
    let nodes = engine.nodes();
    if children.len() > 0 {
        assert forall|i: int| 0 <= i < children.len() implies nodes.contains_key(
            #[trigger] children[i],
        ) by {
            assert(engine.is_current(children[i]));
        }
        lemma_orphans_stay(nodes, engine.rank@, children);
        assert(all_orphaned(nodes, children).dom().contains(node));
        if engine.has_child_among(node, children) {
            let i = choose|i: int|
                0 <= i < children.len() && nodes[#[trigger] children[i]].parent == Some(node);
            assert(children.contains(children[i]));
            assert(all_orphaned(nodes, children).dom().contains(children[i]));
            assert(after.nodes()[children[i]].parent == Some(id));
        } else {
            lemma_all_orphaned(nodes, engine.rank@, children, node);
        }
    }
}

proof fn lemma_all_outside(list: Seq<u64>, gone: Set<u64>)
    requires
        forall|i: int| 0 <= i < list.len() ==> !gone.contains(#[trigger] list[i]),
    ensures
        outside(list, gone) == list,
    decreases list.len(),
{
    reveal(Seq::filter);
    if list.len() > 0 {
        let shorter = list.drop_last();
        assert forall|i: int| 0 <= i < shorter.len() implies !gone.contains(
            #[trigger] shorter[i],
        ) by {
            assert(shorter[i] == list[i]);
        }
        lemma_all_outside(shorter, gone);
        assert(list[list.len() - 1] == list.last());
        assert(shorter.push(list.last()) =~= list);
    }
}

/// A place in the list of a frame with a key has its node in the list of that key.
proof fn lemma_in_bucket(live: Seq<(u64, u64)>, i: int)
    requires
        0 <= i < live.len(),
    ensures
        bucket_of(live, live[i].0).contains(live[i].1),
    decreases live.len(),
{
    let key = live[i].0;
    let shorter = live.drop_last();
    if i == live.len() - 1 {
        let bucket = bucket_of(shorter, key);
        assert(bucket_of(live, key)[bucket.len() as int] == live[i].1);
    } else {
        assert(shorter[i] == live[i]);
        lemma_in_bucket(shorter, i);
        let bucket = bucket_of(shorter, key);
        let k = choose|k: int| 0 <= k < bucket.len() && bucket[k] == live[i].1;
        assert(bucket_of(live, key)[k] == live[i].1);
    }
}

/// The nodes of a frame outlive it with their styles, their children and what they were measured
/// with, and those with a key can be kept in the next.
pub proof fn law_nodes_of_a_frame_outlive_it(
    engine: TaffyLayoutEngine,
    after: TaffyLayoutEngine,
    i: int,
)
    requires
        engine.wf(),
        engine.retain,
        engine.cleared(after),
        0 <= i < engine.live@.len(),
    ensures
        ({
            let key = engine.live@[i].0;
            let node = engine.live@[i].1;
            &&& after.nodes().contains_key(node)
            &&& after.nodes()[node].children == engine.nodes()[node].children
            &&& after.nodes()[node].context == engine.nodes()[node].context
            &&& after.styles@[node] == engine.styles@[node]
            &&& key != 0 ==> exists|index: int| after.pool_has(key, index, node)
        }),
{
    let key = engine.live@[i].0;
    let node = engine.live@[i].1;
    let gone = engine.pooled();
    let children = engine.nodes()[node].children;
    assert(engine.is_live(node));
    assert(engine.nodes().contains_key(node));
    assert(!gone.contains(node));
    assert(engine.is_whole(engine.live@[i].1));
    assert(placed(engine.nodes(), engine.rank@, node));
    assert forall|j: int| 0 <= j < children.len() implies !gone.contains(
        #[trigger] children[j],
    ) by {
        assert(engine.is_live(engine.nodes()[node].children[j]));
    }
    lemma_all_outside(children, gone);
    assert(engine.styles@.dom().contains(node));
    if key != 0 {
        assert(has_key(engine.live@, key));
        assert(after.pool@.contains_key(key));
        lemma_in_bucket(engine.live@, i);
        let bucket = bucket_of(engine.live@, key);
        let index = choose|index: int| 0 <= index < bucket.len() && bucket[index] == node;
        assert(after.pool_has(key, index, node));
    }
}

/// A node that was kept for a frame and not requested in it is gone after it, and no node has it as
/// a child or as its parent.
pub proof fn law_unrequested_nodes_are_gone(
    engine: TaffyLayoutEngine,
    after: TaffyLayoutEngine,
    node: u64,
)
    requires
        engine.wf(),
        engine.retain,
        engine.cleared(after),
        engine.is_pooled(node),
    ensures
        !after.nodes().contains_key(node),
        forall|other: u64| #[trigger]
            after.nodes().contains_key(other) ==> !after.nodes()[other].children.contains(node)
                && after.nodes()[other].parent != Some(node),
{
    let gone = engine.pooled();
    assert(gone.contains(node));
    assert forall|other: u64| #[trigger] after.nodes().contains_key(other) implies
        !after.nodes()[other].children.contains(node) && after.nodes()[other].parent
        != Some(node) by {
        lemma_none_gone(engine.nodes()[other].children, gone, node);
    }
}

proof fn lemma_none_gone(list: Seq<u64>, gone: Set<u64>, node: u64)
    requires
        gone.contains(node),
    ensures
        !outside(list, gone).contains(node),
    decreases list.len(),
{
    reveal(Seq::filter);
    if list.len() > 0 {
        lemma_none_gone(list.drop_last(), gone, node);
        let before = outside(list.drop_last(), gone);
        if outside(list, gone).contains(node) {
            let i = choose|i: int|
                0 <= i < outside(list, gone).len() && outside(list, gone)[i] == node;
            if i < before.len() {
                assert(before[i] == node);
            }
        }
    }
}

/// Once an engine is cleared for the next frame it is set as it was, its counts go on, and nothing is
/// known of where any node is. Where nodes are not kept, there are none.
pub proof fn law_a_cleared_engine_knows_no_places(
    engine: TaffyLayoutEngine,
    after: TaffyLayoutEngine,
    node: u64,
)
    requires
        engine.cleared(after),
    ensures
        after.retain == engine.retain,
        after.verify == engine.verify,
        after.reuse_counts == engine.reuse_counts,
        !after.absolute_layout_bounds@.contains_key(node),
        !after.absolute_outer_origins@.contains_key(node),
        !after.computed_layouts@.contains(node),
        !after.cut@.contains(node),
        engine.retain ==> !after.is_live(node) && after.pending_remeasure@.len() == 0,
        !engine.retain ==> !after.nodes().contains_key(node) && !after.styles@.contains_key(node),
{
}

/// The tree is told the style of every node that is created, and of none that is kept.
pub proof fn law_new_nodes_are_styled(
    engine: TaffyLayoutEngine,
    style: TaffyStyle,
    children: Seq<u64>,
    content_key: Option<u64>,
    measure: u64,
    id: u64,
    after: TaffyLayoutEngine,
)
    requires
        engine.wf(),
        engine.requested(style, children, id, after) || engine.requested_measured(
            style,
            content_key,
            measure,
            id,
            after,
        ),
    ensures
        !engine.nodes().contains_key(id) ==> after.unstyled@ == engine.unstyled@.push(id)
            && after.styles@ == engine.styles@.insert(id, style),
        engine.nodes().contains_key(id) ==> after.unstyled@ == engine.unstyled@ && after.styles@
            == engine.styles@,
{
    let key = key_of(style, children, 0);
    let leaf_key = key_of(style, Seq::empty(), content_key->0);
    if engine.requested(style, children, id, after) && engine.retain && engine.reusable(
        key,
        style,
        children,
        None,
    ) is Some {
        assert(engine.pool_has(key, engine.reusable(key, style, children, None)->0, id));
    }
    if engine.requested_measured(style, content_key, measure, id, after) && engine.retain
        && content_key is Some && engine.reusable(
        leaf_key,
        style,
        Seq::empty(),
        content_key,
    ) is Some {
        assert(engine.pool_has(
            leaf_key,
            engine.reusable(leaf_key, style, Seq::empty(), content_key)->0,
            id,
        ));
    }
}

} // verus!
