//! Where nodes are.
//!
//! The solver says where a node is within its parent. The place of a node in the window is that of
//! its parent and its own within it, in device pixels and not rounded. Its bounds are its edges,
//! each rounded to whole device pixels by itself, so that edges at one place close at one place.

use crate::geometry::{Bounds, Edges, Pixels, Point, Real32, Size};
use crate::layout::engine::{LayoutId, TaffyLayoutEngine};
use crate::layout::forest::placed;
use crate::layout::tree::{tree_parent, NodeContext};
use crate::layout::walk::{is_in, leads_up};
use vstd::prelude::*;

verus! {

/// How numbers are computed with.
pub struct Arithmetic<
    A: Fn(Real32, Real32) -> Real32,
    D: Fn(Real32, Real32) -> Real32,
    R: Fn(Real32) -> Real32,
    U: Fn(Real32) -> Pixels,
> {
    pub add: A,
    pub subtract: D,
    /// Rounds the place of an edge to whole device pixels.
    pub round: R,
    /// Converts device pixels to logical ones.
    pub unscale: U,
}

impl<
    A: Fn(Real32, Real32) -> Real32,
    D: Fn(Real32, Real32) -> Real32,
    R: Fn(Real32) -> Real32,
    U: Fn(Real32) -> Pixels,
> Arithmetic<A, D, R, U> {
    /// All numbers can be computed with.
    pub open spec fn is_total(self) -> bool {
        &&& forall|a: Real32, b: Real32| call_requires(self.add, (a, b))
        &&& forall|a: Real32, b: Real32| call_requires(self.subtract, (a, b))
        &&& forall|a: Real32| call_requires(self.round, (a,))
        &&& forall|a: Real32| call_requires(self.unscale, (a,))
    }

    /// Rounding a number gives one result only.
    pub open spec fn rounds_alike(self) -> bool {
        forall|a: Real32, x: Real32, y: Real32|
            #![trigger call_ensures(self.round, (a,), x), call_ensures(self.round, (a,), y)]
            call_ensures(self.round, (a,), x) && call_ensures(self.round, (a,), y) ==> x == y
    }

    /// Converting a number gives one result only.
    pub open spec fn unscales_alike(self) -> bool {
        forall|a: Real32, x: Pixels, y: Pixels|
            #![trigger call_ensures(self.unscale, (a,), x), call_ensures(self.unscale, (a,), y)]
            call_ensures(self.unscale, (a,), x) && call_ensures(self.unscale, (a,), y) ==> x == y
    }

    /// Each edge is rounded by itself.
    pub open spec fn rounded(self, raw: Edges<Real32>, snapped: Edges<Real32>) -> bool {
        &&& call_ensures(self.round, (raw.left,), snapped.left)
        &&& call_ensures(self.round, (raw.top,), snapped.top)
        &&& call_ensures(self.round, (raw.right,), snapped.right)
        &&& call_ensures(self.round, (raw.bottom,), snapped.bottom)
    }

    /// The place and the extent, in logical pixels, of what lies between two edges.
    pub open spec fn spans(self, near: Real32, far: Real32, place: Pixels, extent: Pixels) -> bool {
        &&& call_ensures(self.unscale, (near,), place)
        &&& exists|distance: Real32| #[trigger]
            call_ensures(self.subtract, (far, near), distance) && call_ensures(
                self.unscale,
                (distance,),
                extent,
            )
    }
}

impl TaffyLayoutEngine {
    /// A node's place and bounds come from its place within its parent and its size, which the
    /// solver found, and from its parent's place. `raw` are its edges, and `snapped` its edges in
    /// whole device pixels.
    pub open spec fn is_placed_as<
        L: Fn(&taffy::TaffyTree<NodeContext>, u64) -> (Point<Real32>, Size<Real32>),
        A: Fn(Real32, Real32) -> Real32,
        D: Fn(Real32, Real32) -> Real32,
        R: Fn(Real32) -> Real32,
        U: Fn(Real32) -> Pixels,
    >(
        self,
        node: u64,
        layout: L,
        arithmetic: Arithmetic<A, D, R, U>,
        location: Point<Real32>,
        size: Size<Real32>,
        raw: Edges<Real32>,
        snapped: Edges<Real32>,
    ) -> bool {
        let origin = self.absolute_outer_origins@[node];
        let bounds = self.absolute_layout_bounds@[node];
        &&& call_ensures(layout, (&self.taffy, node), (location, size))
        &&& match self.nodes()[node].parent {
            Some(parent) => {
                let parent_origin = self.absolute_outer_origins@[parent];
                &&& self.absolute_outer_origins@.contains_key(parent)
                &&& call_ensures(arithmetic.add, (parent_origin.x, location.x), origin.x)
                &&& call_ensures(arithmetic.add, (parent_origin.y, location.y), origin.y)
            },
            None => origin == location,
        }
        &&& raw.left == origin.x
        &&& raw.top == origin.y
        &&& call_ensures(arithmetic.add, (origin.x, size.width), raw.right)
        &&& call_ensures(arithmetic.add, (origin.y, size.height), raw.bottom)
        &&& arithmetic.rounded(raw, snapped)
        &&& arithmetic.spans(snapped.left, snapped.right, bounds.origin.x, bounds.size.width)
        &&& arithmetic.spans(snapped.top, snapped.bottom, bounds.origin.y, bounds.size.height)
    }

    /// A node's place and bounds are right.
    pub open spec fn is_placed<
        L: Fn(&taffy::TaffyTree<NodeContext>, u64) -> (Point<Real32>, Size<Real32>),
        A: Fn(Real32, Real32) -> Real32,
        D: Fn(Real32, Real32) -> Real32,
        R: Fn(Real32) -> Real32,
        U: Fn(Real32) -> Pixels,
    >(self, node: u64, layout: L, arithmetic: Arithmetic<A, D, R, U>) -> bool {
        exists|
            location: Point<Real32>,
            size: Size<Real32>,
            raw: Edges<Real32>,
            snapped: Edges<Real32>,
        | #[trigger]
            self.is_placed_as(node, layout, arithmetic, location, size, raw, snapped)
    }

    /// The node is a node or above it, and its bounds are asked for when those of the node are:
    /// those of no node on the way are known.
    pub open spec fn is_on_the_way(self, id: u64, node: u64) -> bool
        decreases self.top@ - self.rank@[id],
        when self.wf() && self.nodes().contains_key(id)
        via Self::on_the_way_decreases
    {
        &&& !self.absolute_layout_bounds@.contains_key(id)
        &&& node == id || (self.nodes()[id].parent matches Some(parent) && self.is_on_the_way(
            parent,
            node,
        ))
    }

    #[via_fn]
    proof fn on_the_way_decreases(self, id: u64, node: u64) {
        assert(placed(self.nodes(), self.rank@, id));
        if let Some(parent) = self.nodes()[id].parent {
            assert(placed(self.nodes(), self.rank@, parent));
            let list = self.nodes()[parent].children;
            let i = choose|i: int| 0 <= i < list.len() && list[i] == id;
            assert(self.rank@[list[i]] < self.rank@[parent]);
        }
    }
}

impl TaffyLayoutEngine {
    proof fn lemma_parent_is_higher(self, id: u64)
        requires
            self.wf(),
            self.nodes().contains_key(id),
        ensures
            self.nodes()[id].parent matches Some(parent) ==> self.nodes().contains_key(parent)
                && self.rank@[id] < self.rank@[parent],
    {
        assert(placed(self.nodes(), self.rank@, id));
        if let Some(parent) = self.nodes()[id].parent {
            assert(placed(self.nodes(), self.rank@, parent));
            let list = self.nodes()[parent].children;
            let i = choose|i: int| 0 <= i < list.len() && list[i] == id;
            assert(self.rank@[list[i]] < self.rank@[parent]);
        }
    }

    /// What is on the way from a node is not below it.
    proof fn lemma_on_the_way(self, id: u64, node: u64)
        requires
            self.wf(),
            self.nodes().contains_key(id),
            self.is_on_the_way(id, node),
        ensures
            self.nodes().contains_key(node),
            self.rank@[id] <= self.rank@[node],
            !self.absolute_layout_bounds@.contains_key(node),
        decreases self.top@ - self.rank@[id],
    {
        self.lemma_parent_is_higher(id);
        if node != id {
            self.lemma_on_the_way(self.nodes()[id].parent->0, node);
        }
    }

    /// The bounds of a node in logical pixels. Those of the nodes above it are found first, unless
    /// they are known. `layout` reads from the tree where a node is within its parent and how large
    /// it is, in device pixels.
    pub fn layout_bounds<
        L: Fn(&taffy::TaffyTree<NodeContext>, u64) -> (Point<Real32>, Size<Real32>),
        A: Fn(Real32, Real32) -> Real32,
        D: Fn(Real32, Real32) -> Real32,
        R: Fn(Real32) -> Real32,
        U: Fn(Real32) -> Pixels,
    >(&mut self, id: LayoutId, layout: &L, arithmetic: &Arithmetic<A, D, R, U>) -> (r: Bounds<
        Pixels,
    >)
        requires
            old(self).wf(),
            old(self).nodes().contains_key(id.0),
            forall|node: u64| #[trigger]
                old(self).nodes().contains_key(node) ==> call_requires(
                    *layout,
                    (&old(self).taffy, node),
                ),
            arithmetic.is_total(),
        ensures
            final(self).wf(),
            *final(self) == (TaffyLayoutEngine {
                absolute_layout_bounds: final(self).absolute_layout_bounds,
                absolute_outer_origins: final(self).absolute_outer_origins,
                ..*old(self)
            }),
            r == final(self).absolute_layout_bounds@[id.0],
            old(self).absolute_layout_bounds@.contains_key(id.0) ==> r == old(
                self,
            ).absolute_layout_bounds@[id.0],
            forall|node: u64| #[trigger]
                final(self).absolute_layout_bounds@.contains_key(node)
                    == (old(self).absolute_layout_bounds@.contains_key(node)
                    || old(self).is_on_the_way(id.0, node)),
            final(self).absolute_layout_bounds@.contains_key(id.0),
            forall|node: u64| #[trigger]
                old(self).absolute_layout_bounds@.contains_key(node) ==> {
                    &&& final(self).absolute_layout_bounds@[node]
                        == old(self).absolute_layout_bounds@[node]
                    &&& final(self).absolute_outer_origins@[node]
                        == old(self).absolute_outer_origins@[node]
                },
            forall|node: u64| #[trigger]
                old(self).is_on_the_way(id.0, node) ==> final(self).is_placed(
                    node,
                    *layout,
                    *arithmetic,
                ),
        decreases old(self).top@ - old(self).rank@[id.0],
    {
        broadcast use vstd::std_specs::hash::group_hash_axioms;

        if let Some(bounds) = self.absolute_layout_bounds.get(&id.0) {
            return *bounds;
        }
        proof {
            self.lemma_parent_is_higher(id.0);
        }
        let (location, size) = layout(&self.taffy, id.0);
        let parent = tree_parent(&self.taffy, id.0);
        let origin = match parent {
            Some(parent) => {
                self.layout_bounds(LayoutId(parent), layout, arithmetic);
                assert(self.absolute_outer_origins@.dom().contains(parent));
                let parent_origin: Point<Real32> = *self.absolute_outer_origins.get(
                    &parent,
                ).unwrap();
                Point {
                    x: (arithmetic.add)(parent_origin.x, location.x),
                    y: (arithmetic.add)(parent_origin.y, location.y),
                }
            },
            None => location,
        };
        let ghost above = *self;
        proof {
            assert forall|node: u64|
                above.absolute_layout_bounds@.contains_key(node) || node == id.0
                    <==> old(self).absolute_layout_bounds@.contains_key(node) || old(
                self,
            ).is_on_the_way(id.0, node) by {}
            if parent is Some && old(self).is_on_the_way(parent->0, id.0) {
                old(self).lemma_on_the_way(parent->0, id.0);
            }
            assert(!above.absolute_layout_bounds@.contains_key(id.0));
        }
        self.absolute_outer_origins.insert(id.0, origin);
        let raw = Edges {
            left: origin.x,
            top: origin.y,
            right: (arithmetic.add)(origin.x, size.width),
            bottom: (arithmetic.add)(origin.y, size.height),
        };
        let snapped = Edges {
            left: (arithmetic.round)(raw.left),
            top: (arithmetic.round)(raw.top),
            right: (arithmetic.round)(raw.right),
            bottom: (arithmetic.round)(raw.bottom),
        };
        let width = (arithmetic.subtract)(snapped.right, snapped.left);
        let height = (arithmetic.subtract)(snapped.bottom, snapped.top);
        let bounds = Bounds {
            origin: Point {
                x: (arithmetic.unscale)(snapped.left),
                y: (arithmetic.unscale)(snapped.top),
            },
            size: Size {
                width: (arithmetic.unscale)(width),
                height: (arithmetic.unscale)(height),
            },
        };
        self.absolute_layout_bounds.insert(id.0, bounds);
        proof {
            assert(self.absolute_layout_bounds@.dom() =~= self.absolute_outer_origins@.dom()) by {
                assert(above.absolute_layout_bounds@.dom() == above.absolute_outer_origins@.dom());
            }
            Self::lemma_same_tree(*old(self), *self);
            assert(self.is_placed_as(
                id.0,
                *layout,
                *arithmetic,
                location,
                size,
                raw,
                snapped,
            ));
            assert forall|node: u64| #[trigger] old(self).is_on_the_way(id.0, node) implies
                self.is_placed(node, *layout, *arithmetic) by {
                if node != id.0 {
                    old(self).lemma_on_the_way(parent->0, node);
                    old(self).lemma_parent_is_higher(node);
                    assert(above.is_placed(node, *layout, *arithmetic));
                    Self::lemma_stays_placed(above, *self, id.0, node, *layout, *arithmetic);
                }
            }
        }
        bounds
    }

    /// Learning where a node is leaves the others where they are.
    proof fn lemma_stays_placed<
        L: Fn(&taffy::TaffyTree<NodeContext>, u64) -> (Point<Real32>, Size<Real32>),
        A: Fn(Real32, Real32) -> Real32,
        D: Fn(Real32, Real32) -> Real32,
        R: Fn(Real32) -> Real32,
        U: Fn(Real32) -> Pixels,
    >(
        before: TaffyLayoutEngine,
        after: TaffyLayoutEngine,
        id: u64,
        node: u64,
        layout: L,
        arithmetic: Arithmetic<A, D, R, U>,
    )
        requires
            before.is_placed(node, layout, arithmetic),
            node != id,
            before.nodes()[node].parent != Some(id),
            after.absolute_outer_origins@ == before.absolute_outer_origins@.insert(
                id,
                after.absolute_outer_origins@[id],
            ),
            after.absolute_layout_bounds@ == before.absolute_layout_bounds@.insert(
                id,
                after.absolute_layout_bounds@[id],
            ),
            after.taffy == before.taffy,
        ensures
            after.is_placed(node, layout, arithmetic),
    {
        let (location, size, raw, snapped) = choose|
            location: Point<Real32>,
            size: Size<Real32>,
            raw: Edges<Real32>,
            snapped: Edges<Real32>,
        | #[trigger]
            before.is_placed_as(node, layout, arithmetic, location, size, raw, snapped);
        assert(after.is_placed_as(node, layout, arithmetic, location, size, raw, snapped));
    }
}

/// Edges close. Where two nodes, of whatever parents, have an edge at the same place, the edges are
/// at the same place once they are snapped, whichever sides they are of. Near edges at one place are
/// at one place in logical pixels too.
pub proof fn law_edges_at_one_place_close<
    L: Fn(&taffy::TaffyTree<NodeContext>, u64) -> (Point<Real32>, Size<Real32>),
    A: Fn(Real32, Real32) -> Real32,
    D: Fn(Real32, Real32) -> Real32,
    R: Fn(Real32) -> Real32,
    U: Fn(Real32) -> Pixels,
>(
    engine: TaffyLayoutEngine,
    layout: L,
    arithmetic: Arithmetic<A, D, R, U>,
    one: u64,
    one_location: Point<Real32>,
    one_size: Size<Real32>,
    one_raw: Edges<Real32>,
    one_snapped: Edges<Real32>,
    other: u64,
    other_location: Point<Real32>,
    other_size: Size<Real32>,
    other_raw: Edges<Real32>,
    other_snapped: Edges<Real32>,
)
    requires
        arithmetic.rounds_alike(),
        engine.is_placed_as(
            one,
            layout,
            arithmetic,
            one_location,
            one_size,
            one_raw,
            one_snapped,
        ),
        engine.is_placed_as(
            other,
            layout,
            arithmetic,
            other_location,
            other_size,
            other_raw,
            other_snapped,
        ),
    ensures
        one_raw.left == other_raw.left ==> one_snapped.left == other_snapped.left,
        one_raw.right == other_raw.left ==> one_snapped.right == other_snapped.left,
        one_raw.right == other_raw.right ==> one_snapped.right == other_snapped.right,
        one_raw.top == other_raw.top ==> one_snapped.top == other_snapped.top,
        one_raw.bottom == other_raw.top ==> one_snapped.bottom == other_snapped.top,
        one_raw.bottom == other_raw.bottom ==> one_snapped.bottom == other_snapped.bottom,
        arithmetic.unscales_alike() && one_raw.left == other_raw.left
            ==> engine.absolute_layout_bounds@[one].origin.x
            == engine.absolute_layout_bounds@[other].origin.x,
        arithmetic.unscales_alike() && one_raw.top == other_raw.top
            ==> engine.absolute_layout_bounds@[one].origin.y
            == engine.absolute_layout_bounds@[other].origin.y,
{
}

/// The bounds of a node, where adding, subtracting, rounding and converting give the numbers of some
/// functions. Its corner is its place within its parent, added to the corner of its parent, across and
/// down alike. Its bounds begin where its near edges are rounded to, and are as large as its rounded
/// far edges are away from those, each by itself.
pub proof fn law_bounds_lie_between_rounded_edges<
    L: Fn(&taffy::TaffyTree<NodeContext>, u64) -> (Point<Real32>, Size<Real32>),
    A: Fn(Real32, Real32) -> Real32,
    D: Fn(Real32, Real32) -> Real32,
    R: Fn(Real32) -> Real32,
    U: Fn(Real32) -> Pixels,
>(
    engine: TaffyLayoutEngine,
    node: u64,
    layout: L,
    arithmetic: Arithmetic<A, D, R, U>,
    added: spec_fn(Real32, Real32) -> Real32,
    distance: spec_fn(Real32, Real32) -> Real32,
    rounded: spec_fn(Real32) -> Real32,
    unscaled: spec_fn(Real32) -> Pixels,
)
    requires
        forall|a: Real32, b: Real32, c: Real32| #[trigger]
            call_ensures(arithmetic.add, (a, b), c) ==> c == added(a, b),
        forall|a: Real32, b: Real32, c: Real32| #[trigger]
            call_ensures(arithmetic.subtract, (a, b), c) ==> c == distance(a, b),
        forall|a: Real32, b: Real32| #[trigger]
            call_ensures(arithmetic.round, (a,), b) ==> b == rounded(a),
        forall|a: Real32, b: Pixels| #[trigger]
            call_ensures(arithmetic.unscale, (a,), b) ==> b == unscaled(a),
        engine.is_placed(node, layout, arithmetic),
    ensures
        exists|location: Point<Real32>, size: Size<Real32>| #[trigger]
            call_ensures(layout, (&engine.taffy, node), (location, size)) && {
                let corner = engine.absolute_outer_origins@[node];
                let bounds = engine.absolute_layout_bounds@[node];
                let parent = engine.nodes()[node].parent;
                &&& parent is None ==> corner.x == location.x && corner.y == location.y
                &&& parent is Some ==> {
                    let above = engine.absolute_outer_origins@[parent->0];
                    corner.x == added(above.x, location.x) && corner.y == added(above.y, location.y)
                }
                &&& bounds.origin.x == unscaled(rounded(corner.x))
                &&& bounds.origin.y == unscaled(rounded(corner.y))
                &&& bounds.size.width == unscaled(
                    distance(rounded(added(corner.x, size.width)), rounded(corner.x)),
                )
                &&& bounds.size.height == unscaled(
                    distance(rounded(added(corner.y, size.height)), rounded(corner.y)),
                )
            },
{
    let (location, size, raw, snapped) = choose|
        location: Point<Real32>,
        size: Size<Real32>,
        raw: Edges<Real32>,
        snapped: Edges<Real32>,
    | #[trigger]
        engine.is_placed_as(node, layout, arithmetic, location, size, raw, snapped);
    assert(call_ensures(layout, (&engine.taffy, node), (location, size)));
}

/// When the bounds of a node are asked for, those of the node and of the nodes above it are found, up to
/// the first that are known. So none of them is known before; and where none above is known, all of them
/// are found.
pub proof fn law_bounds_are_found_upwards(engine: TaffyLayoutEngine, id: u64, node: u64)
    requires
        engine.wf(),
        engine.nodes().contains_key(id),
    ensures
        engine.is_on_the_way(id, node) ==> {
            &&& is_in(engine.nodes(), id, node)
            &&& !engine.absolute_layout_bounds@.contains_key(id)
            &&& !engine.absolute_layout_bounds@.contains_key(node)
        },
        is_in(engine.nodes(), id, node) && (forall|above: u64| #[trigger]
            is_in(engine.nodes(), id, above) ==> !engine.absolute_layout_bounds@.contains_key(
                above,
            )) ==> engine.is_on_the_way(id, node),
        engine.absolute_layout_bounds@.contains_key(id) ==> !engine.is_on_the_way(id, node),
    decreases engine.top@ - engine.rank@[id],
{
    engine.lemma_parent_is_higher(id);
    if engine.is_on_the_way(id, node) {
        engine.lemma_on_the_way(id, node);
    }
    if node == id {
        assert(leads_up(engine.nodes(), id, node, 0));
    }
    if let Some(parent) = engine.nodes()[id].parent {
        law_bounds_are_found_upwards(engine, parent, node);
        if is_in(engine.nodes(), parent, node) {
            let steps = choose|steps: nat| leads_up(engine.nodes(), parent, node, steps);
            assert(leads_up(engine.nodes(), id, node, steps + 1));
        }
        if is_in(engine.nodes(), id, node) && node != id {
            let steps = choose|steps: nat| leads_up(engine.nodes(), id, node, steps);
            assert(leads_up(engine.nodes(), parent, node, (steps - 1) as nat));
        }
        if forall|above: u64| #[trigger]
            is_in(engine.nodes(), id, above) ==> !engine.absolute_layout_bounds@.contains_key(
                above,
            ) {
            assert forall|above: u64| #[trigger] is_in(engine.nodes(), parent, above) implies
                !engine.absolute_layout_bounds@.contains_key(above) by {
                let steps = choose|steps: nat| leads_up(engine.nodes(), parent, above, steps);
                assert(leads_up(engine.nodes(), id, above, steps + 1));
                assert(is_in(engine.nodes(), id, above));
            }
        }
    } else if is_in(engine.nodes(), id, node) {
        let steps = choose|steps: nat| leads_up(engine.nodes(), id, node, steps);
    }
    assert(leads_up(engine.nodes(), id, id, 0));
    assert(is_in(engine.nodes(), id, id));
}

} // verus!
