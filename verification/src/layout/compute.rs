//! Layout of a tree, and what is known of where its nodes are.

use crate::geometry::{is_number, place_of, same_number, AvailableSpace, Pixels, Real32, Size};
use crate::layout::engine::{LayoutId, TaffyLayoutEngine};
use crate::layout::forest::{descendants, subtree};
use crate::layout::stats::{count_up, sum, LayoutStats};
use crate::layout::walk::{is_in, law_a_walk_finds_what_lies_below};
use crate::layout::tree::{tree_context, tree_total_node_count, MeasureArgs, TreeNode};
use crate::style::{TaffyLength, TaffyStyle};
use vstd::prelude::*;

verus! {

// ---- styles ------------------------------------------------------------------------------------

/// The styles of those nodes of a list that are in the tree.
pub open spec fn styles_of(list: Seq<u64>, styles: Map<u64, TaffyStyle>) -> Seq<
    (LayoutId, TaffyStyle),
>
    decreases list.len(),
{
    if list.len() == 0 {
        seq![]
    } else if styles.contains_key(list.last()) {
        styles_of(list.drop_last(), styles).push((LayoutId(list.last()), styles[list.last()]))
    } else {
        styles_of(list.drop_last(), styles)
    }
}

/// An automatic dimension becomes a length, any other is left.
pub open spec fn stretched<F: Fn(Pixels) -> Real32>(
    dimension: TaffyLength,
    length: Pixels,
    snap: F,
    result: TaffyLength,
) -> bool {
    if dimension == TaffyLength::Auto {
        &&& result is Length
        &&& call_ensures(snap, (length,), (Real32 { bits: result->Length_0 }))
    } else {
        result == dimension
    }
}

fn stretch<F: Fn(Pixels) -> Real32>(dimension: TaffyLength, length: Pixels, snap: &F) -> (r:
    TaffyLength)
    requires
        forall|length: Pixels| call_requires(*snap, (length,)),
    ensures
        stretched(dimension, length, *snap, r),
{
    match dimension {
        TaffyLength::Auto => {
            let snapped = snap(length);
            TaffyLength::Length(snapped.bits)
        },
        _ => dimension,
    }
}

/// A style whose automatic dimensions fill a size.
pub open spec fn fills<F: Fn(Pixels) -> Real32>(
    before: TaffyStyle,
    size: Size<Pixels>,
    snap: F,
    after: TaffyStyle,
) -> bool {
    &&& stretched(before.size.width, size.width, snap, after.size.width)
    &&& stretched(before.size.height, size.height, snap, after.size.height)
    &&& after == TaffyStyle { size: after.size, ..before }
}

impl TaffyLayoutEngine {
    /// The nodes whose styles the tree has not been told yet, with their styles.
    pub fn take_unstyled(&mut self) -> (r: Vec<(LayoutId, TaffyStyle)>)
        requires
            old(self).wf(),
        ensures
            final(self).wf(),
            r@ == styles_of(old(self).unstyled@, old(self).styles@),
            final(self).unstyled@.len() == 0,
            *final(self) == (TaffyLayoutEngine { unstyled: final(self).unstyled, ..*old(self) }),
    {
        broadcast use vstd::std_specs::hash::group_hash_axioms;

        let mut list: Vec<(LayoutId, TaffyStyle)> = Vec::new();
        let mut i: usize = 0;
        assert(self.unstyled@.take(0) =~= Seq::<u64>::empty());
        while i < self.unstyled.len()
            invariant
                *self == *old(self),
                i <= self.unstyled@.len(),
                list@ == styles_of(self.unstyled@.take(i as int), self.styles@),
            decreases self.unstyled@.len() - i,
        {
            broadcast use vstd::std_specs::hash::group_hash_axioms;

            let node = self.unstyled[i];
            assert(self.unstyled@.take(i + 1).drop_last() =~= self.unstyled@.take(i as int));
            if let Some(style) = self.styles.get(&node) {
                list.push((LayoutId(node), *style));
            }
            i = i + 1;
        }
        assert(self.unstyled@.take(i as int) =~= self.unstyled@);
        self.unstyled.clear();
        proof {
            Self::lemma_same_tree(*old(self), *self);
        }
        list
    }

    /// Treats an automatic dimension of a node as filling a size. A window's root fills the window
    /// so, unless it says otherwise.
    pub fn stretch_auto_size_to_fill<F: Fn(Pixels) -> Real32>(
        &mut self,
        id: LayoutId,
        size: Size<Pixels>,
        snap: &F,
    )
        requires
            old(self).wf(),
            old(self).nodes().contains_key(id.0),
            forall|length: Pixels| call_requires(*snap, (length,)),
        ensures
            final(self).wf(),
            fills(old(self).styles@[id.0], size, *snap, final(self).styles@[id.0]),
            ({
                let before = old(self).styles@[id.0];
                let after = final(self).styles@[id.0];
                &&& stretched(before.size.width, size.width, *snap, after.size.width)
                &&& stretched(before.size.height, size.height, *snap, after.size.height)
                &&& after == TaffyStyle { size: after.size, ..before }
                &&& final(self).styles@ == old(self).styles@.insert(id.0, after)
                &&& final(self).unstyled@ == if before.size.width == TaffyLength::Auto
                    || before.size.height == TaffyLength::Auto {
                    old(self).unstyled@.push(id.0)
                } else {
                    old(self).unstyled@
                }
            }),
            *final(self) == (TaffyLayoutEngine {
                styles: final(self).styles,
                unstyled: final(self).unstyled,
                ..*old(self)
            }),
    {
        broadcast use vstd::std_specs::hash::group_hash_axioms;

        assert(self.styles@.dom().contains(id.0));
        let style: TaffyStyle = *self.styles.get(&id.0).unwrap();
        let stretch_width = matches!(style.size.width, TaffyLength::Auto);
        let stretch_height = matches!(style.size.height, TaffyLength::Auto);
        if !stretch_width && !stretch_height {
            assert(self.styles@ =~= self.styles@.insert(id.0, style));
            return;
        }
        let mut fresh = style;
        fresh.size = Size {
            width: stretch(style.size.width, size.width, snap),
            height: stretch(style.size.height, size.height, snap),
        };
        self.styles.insert(id.0, fresh);
        self.unstyled.push(id.0);
        proof {
            assert(self.styles@.dom() =~= old(self).styles@.dom());
            Self::lemma_same_tree(*old(self), *self);
        }
    }
}

// ---- measuring ---------------------------------------------------------------------------------

/// A number that is known is converted.
pub open spec fn known_converted<F: Fn(Real32) -> Pixels>(
    known: Option<Real32>,
    convert: F,
    result: Option<Pixels>,
) -> bool {
    match known {
        Some(length) => result is Some && call_ensures(convert, (length,), result->0),
        None => result is None,
    }
}

impl MeasureArgs {
    /// Both dimensions of what is known and of the space are converted.
    pub open spec fn converted<F: Fn(Real32) -> Pixels, G: Fn(Pixels) -> Pixels>(
        self,
        unscale: F,
        unscale_space: G,
        known: Size<Option<Pixels>>,
        space: Size<AvailableSpace>,
    ) -> bool {
        &&& known_converted(self.known_dimensions.width, unscale, known.width)
        &&& known_converted(self.known_dimensions.height, unscale, known.height)
        &&& self.available_space.converted(unscale_space, space)
    }

    /// What a leaf is measured with, in logical pixels. `unscale` converts device pixels to those.
    pub fn in_pixels<F: Fn(Real32) -> Pixels, G: Fn(Pixels) -> Pixels>(
        &self,
        unscale: &F,
        unscale_space: &G,
    ) -> (r: (Size<Option<Pixels>>, Size<AvailableSpace>))
        requires
            forall|length: Real32| call_requires(*unscale, (length,)),
            forall|length: Pixels| call_requires(*unscale_space, (length,)),
        ensures
            self.converted(*unscale, *unscale_space, r.0, r.1),
            known_converted(self.known_dimensions.width, *unscale, r.0.width),
            known_converted(self.known_dimensions.height, *unscale, r.0.height),
            self.available_space.width.converted(*unscale_space, r.1.width),
            self.available_space.height.converted(*unscale_space, r.1.height),
    {
        let width = match self.known_dimensions.width {
            Some(length) => Some(unscale(length)),
            None => None,
        };
        let height = match self.known_dimensions.height {
            Some(length) => Some(unscale(length)),
            None => None,
        };
        (Size { width, height }, self.available_space.convert(unscale_space))
    }
}

/// A length, or zero where the length is negative or not a number.
pub open spec fn non_negative(length: Pixels) -> Pixels {
    if length.0.bits >= 0x8000_0000 || length.0.spec_is_nan() {
        Pixels(Real32 { bits: 0 })
    } else {
        length
    }
}

fn at_least_zero(length: Pixels) -> (r: Pixels)
    ensures
        r == non_negative(length),
{
    if length.0.bits >= 0x8000_0000 || length.0.is_nan() {
        Pixels(Real32 { bits: 0 })
    } else {
        length
    }
}

/// A measured size is snapped in both dimensions.
pub open spec fn measured<F: Fn(Pixels) -> Real32>(
    size: Size<Pixels>,
    snap: F,
    result: Size<Real32>,
) -> bool {
    &&& call_ensures(snap, (non_negative(size.width),), result.width)
    &&& call_ensures(snap, (non_negative(size.height),), result.height)
}

/// A measured size in whole device pixels. `snap` rounds one length up; a negative one counts as
/// zero.
pub fn snap_measured_size_to_device_pixels<F: Fn(Pixels) -> Real32>(
    size: Size<Pixels>,
    snap: &F,
) -> (r: Size<Real32>)
    requires
        forall|length: Pixels| call_requires(*snap, (length,)),
    ensures
        measured(size, *snap, r),
        call_ensures(*snap, (non_negative(size.width),), r.width),
        call_ensures(*snap, (non_negative(size.height),), r.height),
{
    Size { width: snap(at_least_zero(size.width)), height: snap(at_least_zero(size.height)) }
}

/// A leaf that is measured again because it was kept.
#[derive(Clone, Copy, Debug)]
pub struct Remeasure {
    pub id: LayoutId,
    /// Names the function that measures the leaf.
    pub measure: u64,
    pub args: MeasureArgs,
}

/// The leaves of a list that were measured before, with what they were measured with.
pub open spec fn remeasured(list: Seq<u64>, nodes: Map<u64, TreeNode>) -> Seq<Remeasure>
    decreases list.len(),
{
    if list.len() == 0 {
        seq![]
    } else {
        let rest = remeasured(list.drop_last(), nodes);
        match nodes[list.last()].context {
            Some(context) => match context.last_args {
                Some(args) => rest.push(
                    Remeasure { id: LayoutId(list.last()), measure: context.measure, args },
                ),
                None => rest,
            },
            None => rest,
        }
    }
}

// ---- the solver's run --------------------------------------------------------------------------

/// What the solver is to do.
#[derive(Debug)]
pub struct LayoutRun {
    pub id: LayoutId,
    /// In device pixels.
    pub available_space: Size<AvailableSpace>,
    /// The leaves that are measured first.
    pub remeasure: Vec<Remeasure>,
    /// Whether the result is then compared with a layout from nothing.
    pub verify: bool,
    /// Whether the layout counts: whether anything was counted when it began.
    pub counts: bool,
}

impl TaffyLayoutEngine {
    /// Forgets where the nodes of a subtree are.
    fn forget_bounds(&mut self, id: u64)
        requires
            old(self).wf(),
            old(self).nodes().contains_key(id),
        ensures
            final(self).wf(),
            final(self).absolute_layout_bounds@ == old(self).absolute_layout_bounds@.remove_keys(
                subtree(old(self).nodes(), old(self).rank@, id).to_set(),
            ),
            final(self).absolute_outer_origins@ == old(self).absolute_outer_origins@.remove_keys(
                subtree(old(self).nodes(), old(self).rank@, id).to_set(),
            ),
            *final(self) == (TaffyLayoutEngine {
                absolute_layout_bounds: final(self).absolute_layout_bounds,
                absolute_outer_origins: final(self).absolute_outer_origins,
                ..*old(self)
            }),
    {
        broadcast use vstd::std_specs::hash::group_hash_axioms;

        let list = self.walk(id);
        let mut i: usize = 0;
        proof {
            let none = list@.take(0).to_set();
            assert(self.absolute_layout_bounds@ =~= self.absolute_layout_bounds@.remove_keys(none));
            assert(self.absolute_outer_origins@ =~= self.absolute_outer_origins@.remove_keys(none));
        }
        while i < list.len()
            invariant
                i <= list@.len(),
                self.absolute_layout_bounds@ == old(self).absolute_layout_bounds@.remove_keys(
                    list@.take(i as int).to_set(),
                ),
                self.absolute_outer_origins@ == old(self).absolute_outer_origins@.remove_keys(
                    list@.take(i as int).to_set(),
                ),
                *self == (TaffyLayoutEngine {
                    absolute_layout_bounds: self.absolute_layout_bounds,
                    absolute_outer_origins: self.absolute_outer_origins,
                    ..*old(self)
                }),
            decreases list@.len() - i,
        {
            broadcast use vstd::std_specs::hash::group_hash_axioms;

            let node = list[i];
            self.absolute_layout_bounds.remove(&node);
            self.absolute_outer_origins.remove(&node);
            proof {
                let before = list@.take(i as int);
                let after = list@.take(i + 1);
                assert(after =~= before.push(node));
                assert forall|n: u64| #[trigger] after.contains(n) <==> before.contains(n) || n
                    == node by {
                    if before.contains(n) {
                        let k = choose|k: int| 0 <= k < before.len() && before[k] == n;
                        assert(after[k] == n);
                    }
                    assert(after[i as int] == node);
                    if after.contains(n) && n != node {
                        let k = choose|k: int| 0 <= k < after.len() && after[k] == n;
                        assert(before[k] == n);
                    }
                }
                assert(self.absolute_layout_bounds@
                    =~= old(self).absolute_layout_bounds@.remove_keys(after.to_set()));
                assert(self.absolute_outer_origins@
                    =~= old(self).absolute_outer_origins@.remove_keys(after.to_set()));
            }
            i = i + 1;
        }
        proof {
            assert(list@.take(i as int) =~= list@);
            assert(self.absolute_layout_bounds@.dom() =~= self.absolute_outer_origins@.dom());
            Self::lemma_same_tree(*old(self), *self);
        }
    }
}

impl TaffyLayoutEngine {
    /// The leaves that are measured again because they were kept.
    fn take_remeasured(&mut self) -> (r: Vec<Remeasure>)
        requires
            old(self).wf(),
        ensures
            final(self).wf(),
            r@ == remeasured(old(self).pending_remeasure@, old(self).nodes()),
            final(self).pending_remeasure@.len() == 0,
            *final(self) == (TaffyLayoutEngine {
                pending_remeasure: final(self).pending_remeasure,
                ..*old(self)
            }),
    {
        let mut list: Vec<Remeasure> = Vec::new();
        let mut i: usize = 0;
        assert(self.pending_remeasure@.take(0) =~= Seq::<u64>::empty());
        while i < self.pending_remeasure.len()
            invariant
                self.wf(),
                *self == *old(self),
                i <= self.pending_remeasure@.len(),
                list@ == remeasured(self.pending_remeasure@.take(i as int), self.nodes()),
            decreases self.pending_remeasure@.len() - i,
        {
            let node = self.pending_remeasure[i];
            proof {
                assert(self.nodes().contains_key(self.pending_remeasure@[i as int]));
                assert(self.pending_remeasure@.take(i + 1).drop_last()
                    =~= self.pending_remeasure@.take(i as int));
            }
            if let Some(context) = tree_context(&self.taffy, node) {
                if let Some(args) = context.last_args {
                    list.push(Remeasure { id: LayoutId(node), measure: context.measure, args });
                }
            }
            i = i + 1;
        }
        assert(self.pending_remeasure@.take(i as int) =~= self.pending_remeasure@);
        self.pending_remeasure.clear();
        proof {
            Self::lemma_same_tree(*old(self), *self);
        }
        list
    }

    /// The counters after a layout began: one more frame with all its nodes, and what was created
    /// and kept until then.
    pub open spec fn counted(self, stats: LayoutStats, after: LayoutStats) -> bool {
        if stats.enabled {
            &&& after.totals@ == stats.totals@.update(0, sum(stats.totals@[0], 1)).update(
                1,
                sum(stats.totals@[1], self.nodes().dom().len() as u64),
            )
            &&& after.reuse == (
                sum(stats.reuse.0, self.reuse_counts.0),
                sum(stats.reuse.1, self.reuse_counts.1),
            )
            &&& after == LayoutStats { totals: after.totals, reuse: after.reuse, ..stats }
        } else {
            after == stats
        }
    }

    /// What the beginning of a layout does to an engine.
    pub open spec fn begun(self, id: u64, counts: bool, after: TaffyLayoutEngine) -> bool {
        let moved = subtree(self.nodes(), self.rank@, id).to_set();
        &&& after.computed_layouts@ == self.computed_layouts@.insert(id)
        &&& if self.computed_layouts@.contains(id) {
            &&& after.absolute_layout_bounds@ == self.absolute_layout_bounds@.remove_keys(moved)
            &&& after.absolute_outer_origins@ == self.absolute_outer_origins@.remove_keys(moved)
        } else {
            &&& after.absolute_layout_bounds == self.absolute_layout_bounds
            &&& after.absolute_outer_origins == self.absolute_outer_origins
        }
        &&& after.reuse_counts == if counts {
            (0u64, 0u64)
        } else {
            self.reuse_counts
        }
        &&& after.pending_remeasure@.len() == 0
        &&& after == TaffyLayoutEngine {
            absolute_layout_bounds: after.absolute_layout_bounds,
            absolute_outer_origins: after.absolute_outer_origins,
            computed_layouts: after.computed_layouts,
            reuse_counts: after.reuse_counts,
            pending_remeasure: after.pending_remeasure,
            ..self
        }
    }

    /// Begins a layout, and says what the solver is to do. Where the node was laid out in this frame
    /// before, nothing is known any longer of where it and the nodes below it are. `scale` converts
    /// logical pixels to device pixels. The tree has to be told the styles of `take_unstyled` before
    /// the solver runs.
    pub fn compute_layout<F: Fn(Pixels) -> Pixels>(
        &mut self,
        id: LayoutId,
        available_space: Size<AvailableSpace>,
        scale: &F,
        stats: &mut LayoutStats,
    ) -> (r: LayoutRun)
        requires
            old(self).wf(),
            old(self).nodes().contains_key(id.0),
            forall|length: Pixels| call_requires(*scale, (length,)),
        ensures
            final(self).wf(),
            old(self).begun(id.0, old(stats).enabled, *final(self)),
            old(self).counted(*old(stats), *final(stats)),
            r.id == id,
            available_space.converted(*scale, r.available_space),
            available_space.width.converted(*scale, r.available_space.width),
            available_space.height.converted(*scale, r.available_space.height),
            r.remeasure@ == remeasured(old(self).pending_remeasure@, old(self).nodes()),
            r.verify == old(self).verify,
            r.counts == old(stats).enabled,
    {
        broadcast use vstd::std_specs::hash::group_hash_axioms;

        if self.computed_layouts.contains(&id.0) {
            self.forget_bounds(id.0);
            assert(self.computed_layouts@ =~= old(self).computed_layouts@.insert(id.0));
        } else {
            self.computed_layouts.insert(id.0);
            proof {
                Self::lemma_same_tree(*old(self), *self);
            }
        }
        let available_space = available_space.convert(scale);
        let ghost before = *self;
        if stats.enabled {
            stats.add_total(0, 1);
            stats.add_total(1, tree_total_node_count(&self.taffy) as u64);
            let created = count_up(stats.reuse.0, self.reuse_counts.0);
            let kept = count_up(stats.reuse.1, self.reuse_counts.1);
            stats.reuse = (created, kept);
            self.reuse_counts = (0, 0);
            proof {
                Self::lemma_same_tree(before, *self);
            }
        }
        let remeasure = self.take_remeasured();
        LayoutRun { id, available_space, remeasure, verify: self.verify, counts: stats.enabled }
    }

    /// The counters once the solver is done with a layout that counts.
    pub open spec fn timed(
        self,
        id: u64,
        nanoseconds: u64,
        stats: LayoutStats,
        after: LayoutStats,
    ) -> bool {
        &&& after.totals@ == stats.totals@.update(2, sum(stats.totals@[2], nanoseconds))
        &&& after.calls@ == stats.calls@.push(
            (nanoseconds, (1 + descendants(self.nodes(), self.rank@, id)) as u32),
        )
        &&& after == LayoutStats { totals: after.totals, calls: after.calls, ..stats }
    }

    /// Takes note that the solver is done, and how many nanoseconds it took. `counts` says whether
    /// the layout counts, whatever was turned on or off since it began.
    pub fn finish_layout(
        &self,
        id: LayoutId,
        counts: bool,
        nanoseconds: u64,
        stats: &mut LayoutStats,
    )
        requires
            self.wf(),
            self.nodes().contains_key(id.0),
            counts ==> descendants(self.nodes(), self.rank@, id.0) < u32::MAX,
        ensures
            counts ==> self.timed(id.0, nanoseconds, *old(stats), *final(stats)),
            !counts ==> *final(stats) == *old(stats),
            if counts {
                &&& final(stats).totals@ == old(stats).totals@.update(
                    2,
                    sum(old(stats).totals@[2], nanoseconds),
                )
                &&& final(stats).calls@ == old(stats).calls@.push(
                    (nanoseconds, (1 + descendants(self.nodes(), self.rank@, id.0)) as u32),
                )
                &&& *final(stats) == LayoutStats {
                    totals: final(stats).totals,
                    calls: final(stats).calls,
                    ..*old(stats)
                }
            } else {
                *final(stats) == *old(stats)
            },
    {
        if counts {
            stats.add_total(2, nanoseconds);
            let subtree_count = self.count_all_children(id) + 1;
            stats.calls.push((nanoseconds, subtree_count));
        }
    }
}

// ---- laws --------------------------------------------------------------------------------------

/// Only an automatic dimension fills the size: it becomes as many device pixels as that is. Any other
/// stays.
pub proof fn law_only_automatic_dimensions_fill<F: Fn(Pixels) -> Real32>(
    dimension: TaffyLength,
    length: Pixels,
    snap: F,
    snapped: spec_fn(Pixels) -> Real32,
    result: TaffyLength,
)
    requires
        forall|a: Pixels, b: Real32| #[trigger] call_ensures(snap, (a,), b) ==> b == snapped(a),
        stretched(dimension, length, snap, result),
    ensures
        dimension is Auto ==> result == TaffyLength::Length(snapped(length).bits),
        !(dimension is Auto) ==> result == dimension,
{
}

/// What is known is converted, and what is not known stays so.
pub proof fn law_only_known_lengths_are_converted<F: Fn(Real32) -> Pixels>(
    known: Option<Real32>,
    convert: F,
    converted: spec_fn(Real32) -> Pixels,
    result: Option<Pixels>,
)
    requires
        forall|a: Real32, b: Pixels| #[trigger] call_ensures(convert, (a,), b) ==> b == converted(a),
        known_converted(known, convert, result),
    ensures
        known is Some ==> result == Some(converted(known->0)),
        known is None ==> result is None,
{
}

/// What measures less than nothing, or no number at all, counts as zero; anything else counts as it is.
pub proof fn law_no_measure_is_negative(length: Pixels)
    ensures
        is_number(non_negative(length).0),
        place_of(non_negative(length).0) >= 0,
        is_number(length.0) && place_of(length.0) >= 0 ==> same_number(
            non_negative(length).0,
            length.0,
        ),
        !is_number(length.0) || place_of(length.0) < 0 ==> place_of(non_negative(length).0) == 0,
{
}

/// The tree is told the styles of the nodes that it was not told of, in order, each with its own style;
/// nodes that are gone are left out.
pub proof fn law_nodes_are_told_their_styles(
    front: Seq<u64>,
    back: Seq<u64>,
    node: u64,
    styles: Map<u64, TaffyStyle>,
)
    ensures
        styles_of(front + back, styles) == styles_of(front, styles) + styles_of(back, styles),
        styles.contains_key(node) ==> styles_of(seq![node], styles) == seq![
            (LayoutId(node), styles[node]),
        ],
        !styles.contains_key(node) ==> styles_of(seq![node], styles).len() == 0,
    decreases back.len(),
{
    assert(styles_of(seq![node], styles) =~= if styles.contains_key(node) {
        seq![(LayoutId(node), styles[node])]
    } else {
        seq![]
    }) by {
        reveal_with_fuel(styles_of, 2);
    }
    let all = front + back;
    if back.len() == 0 {
        assert(all =~= front);
        assert(styles_of(front, styles) + styles_of(back, styles) =~= styles_of(front, styles));
    } else {
        assert(all.drop_last() =~= front + back.drop_last());
        assert(all.last() == back.last());
        law_nodes_are_told_their_styles(front, back.drop_last(), node, styles);
        assert(styles_of(all, styles) =~= styles_of(front, styles) + styles_of(back, styles));
    }
}

/// A leaf that was kept is measured again as it was measured last, by the function that it has now. One
/// that was never measured is not. The order is that of the list.
pub proof fn law_kept_leaves_are_measured_again(
    front: Seq<u64>,
    back: Seq<u64>,
    node: u64,
    nodes: Map<u64, TreeNode>,
)
    ensures
        remeasured(front + back, nodes) == remeasured(front, nodes) + remeasured(back, nodes),
        ({
            let context = nodes[node].context;
            let list = remeasured(seq![node], nodes);
            &&& context is Some && context->0.last_args is Some ==> {
                &&& list.len() == 1
                &&& list[0].id.0 == node
                &&& list[0].measure == context->0.measure
                &&& list[0].args == context->0.last_args->0
            }
            &&& context is None || context->0.last_args is None ==> list.len() == 0
        }),
    decreases back.len(),
{
    assert(seq![node].drop_last() =~= Seq::<u64>::empty());
    reveal_with_fuel(remeasured, 2);
    let all = front + back;
    if back.len() == 0 {
        assert(all =~= front);
        assert(remeasured(front, nodes) + remeasured(back, nodes) =~= remeasured(front, nodes));
    } else {
        assert(all.drop_last() =~= front + back.drop_last());
        assert(all.last() == back.last());
        law_kept_leaves_are_measured_again(front, back.drop_last(), node, nodes);
        assert(remeasured(all, nodes) =~= remeasured(front, nodes) + remeasured(back, nodes));
    }
}

/// A layout that counts counts itself once, all nodes of the tree, and what was created and kept since
/// the one before, each where it belongs. Durations and measure calls are not touched, and one that
/// does not count touches nothing.
pub proof fn law_a_layout_counts_itself(
    engine: TaffyLayoutEngine,
    stats: LayoutStats,
    after: LayoutStats,
)
    requires
        engine.counted(stats, after),
    ensures
        !stats.enabled ==> after == stats,
        stats.enabled ==> {
            &&& after.enabled
            &&& stats.totals@[0] < u64::MAX ==> after.totals@[0] == stats.totals@[0] + 1
            &&& engine.nodes().dom().len() <= u64::MAX && stats.totals@[1]
                + engine.nodes().dom().len() <= u64::MAX ==> after.totals@[1] == stats.totals@[1]
                + engine.nodes().dom().len()
            &&& after.totals@[2] == stats.totals@[2]
            &&& after.totals@[3] == stats.totals@[3]
            &&& after.totals@[4] == stats.totals@[4]
            &&& stats.reuse.0 + engine.reuse_counts.0 <= u64::MAX ==> after.reuse.0
                == stats.reuse.0 + engine.reuse_counts.0
            &&& stats.reuse.1 + engine.reuse_counts.1 <= u64::MAX ==> after.reuse.1
                == stats.reuse.1 + engine.reuse_counts.1
            &&& after.calls == stats.calls
            &&& after.cache == stats.cache
        },
{
}

/// A node that is laid out a second time in a frame is no longer known to be anywhere, nor is any node
/// below it; all others are where they were. The first time nothing is forgotten.
pub proof fn law_only_nodes_laid_out_again_are_forgotten(
    engine: TaffyLayoutEngine,
    id: u64,
    counts: bool,
    after: TaffyLayoutEngine,
    node: u64,
)
    requires
        engine.wf(),
        engine.nodes().contains_key(id),
        engine.nodes().contains_key(node),
        engine.begun(id, counts, after),
    ensures
        after.computed_layouts@.contains(id),
        node != id ==> after.computed_layouts@.contains(node)
            == engine.computed_layouts@.contains(node),
        engine.computed_layouts@.contains(id) && is_in(engine.nodes(), node, id)
            ==> !after.absolute_layout_bounds@.contains_key(node)
            && !after.absolute_outer_origins@.contains_key(node),
        !engine.computed_layouts@.contains(id) || !is_in(engine.nodes(), node, id) ==> {
            &&& after.absolute_layout_bounds@.contains_key(node)
                == engine.absolute_layout_bounds@.contains_key(node)
            &&& after.absolute_layout_bounds@.contains_key(node)
                ==> after.absolute_layout_bounds@[node] == engine.absolute_layout_bounds@[node]
            &&& after.absolute_outer_origins@.contains_key(node)
                ==> after.absolute_outer_origins@[node] == engine.absolute_outer_origins@[node]
        },
        counts ==> after.reuse_counts.0 == 0 && after.reuse_counts.1 == 0,
        !counts ==> after.reuse_counts == engine.reuse_counts,
{
    law_a_walk_finds_what_lies_below(engine.nodes(), engine.rank@, id, node);
}

/// A style that fills a size has the width of the size where its width was automatic, and the height
/// where its height was. Nothing else of it changes.
pub proof fn law_automatic_sizes_are_filled<F: Fn(Pixels) -> Real32>(
    before: TaffyStyle,
    size: Size<Pixels>,
    snap: F,
    snapped: spec_fn(Pixels) -> Real32,
    after: TaffyStyle,
)
    requires
        forall|a: Pixels, b: Real32| #[trigger] call_ensures(snap, (a,), b) ==> b == snapped(a),
        fills(before, size, snap, after),
    ensures
        before.size.width is Auto ==> after.size.width == TaffyLength::Length(
            snapped(size.width).bits,
        ),
        before.size.height is Auto ==> after.size.height == TaffyLength::Length(
            snapped(size.height).bits,
        ),
        !(before.size.width is Auto) ==> after.size.width == before.size.width,
        !(before.size.height is Auto) ==> after.size.height == before.size.height,
        after == (TaffyStyle { size: after.size, ..before }),
{
}

/// What a leaf is measured with is converted dimension by dimension: what is known of its width and of
/// its height, and the space across and down.
pub proof fn law_measures_are_converted_apart<F: Fn(Real32) -> Pixels, G: Fn(Pixels) -> Pixels>(
    args: MeasureArgs,
    unscale: F,
    unscale_space: G,
    unscaled: spec_fn(Real32) -> Pixels,
    unscaled_space: spec_fn(Pixels) -> Pixels,
    known: Size<Option<Pixels>>,
    space: Size<AvailableSpace>,
)
    requires
        forall|a: Real32, b: Pixels| #[trigger] call_ensures(unscale, (a,), b) ==> b == unscaled(a),
        forall|a: Pixels, b: Pixels| #[trigger]
            call_ensures(unscale_space, (a,), b) ==> b == unscaled_space(a),
        args.converted(unscale, unscale_space, known, space),
    ensures
        args.known_dimensions.width is Some == known.width is Some,
        args.known_dimensions.height is Some == known.height is Some,
        known.width is Some ==> known.width->0 == unscaled(args.known_dimensions.width->0),
        known.height is Some ==> known.height->0 == unscaled(args.known_dimensions.height->0),
        args.available_space.width is Definite ==> space.width == AvailableSpace::Definite(
            unscaled_space(args.available_space.width->Definite_0),
        ),
        args.available_space.height is Definite ==> space.height == AvailableSpace::Definite(
            unscaled_space(args.available_space.height->Definite_0),
        ),
        !(args.available_space.width is Definite) ==> space.width == args.available_space.width,
        !(args.available_space.height is Definite) ==> space.height == args.available_space.height,
{
}

/// A measured size is snapped in each dimension by itself, and what is less than nothing counts as zero.
pub proof fn law_measured_sizes_are_snapped_apart<F: Fn(Pixels) -> Real32>(
    size: Size<Pixels>,
    snap: F,
    snapped: spec_fn(Pixels) -> Real32,
    result: Size<Real32>,
)
    requires
        forall|a: Pixels, b: Real32| #[trigger] call_ensures(snap, (a,), b) ==> b == snapped(a),
        measured(size, snap, result),
    ensures
        is_number(size.width.0) && 0 < place_of(size.width.0) ==> result.width == snapped(
            size.width,
        ),
        is_number(size.height.0) && 0 < place_of(size.height.0) ==> result.height == snapped(
            size.height,
        ),
        !is_number(size.width.0) || place_of(size.width.0) <= 0 ==> result.width == snapped(
            Pixels(Real32 { bits: 0 }),
        ),
        !is_number(size.height.0) || place_of(size.height.0) <= 0 ==> result.height == snapped(
            Pixels(Real32 { bits: 0 }),
        ),
{
}

/// A layout that counts is timed: its duration adds to the total, and is recorded with the number of
/// nodes that it was for, the node and all that lie below it.
pub proof fn law_a_layout_is_timed(
    engine: TaffyLayoutEngine,
    id: u64,
    nanoseconds: u64,
    stats: LayoutStats,
    after: LayoutStats,
)
    requires
        engine.wf(),
        engine.nodes().contains_key(id),
        descendants(engine.nodes(), engine.rank@, id) < u32::MAX,
        engine.timed(id, nanoseconds, stats, after),
    ensures
        after.calls@.len() == stats.calls@.len() + 1,
        after.calls@.take(stats.calls@.len() as int) == stats.calls@,
        after.calls@.last().0 == nanoseconds,
        after.calls@.last().1 == subtree(engine.nodes(), engine.rank@, id).len(),
        stats.totals@[2] + nanoseconds <= u64::MAX ==> after.totals@[2] == stats.totals@[2]
            + nanoseconds,
        after.totals@[0] == stats.totals@[0],
        after.totals@[1] == stats.totals@[1],
        after.totals@[3] == stats.totals@[3],
        after.totals@[4] == stats.totals@[4],
        after.reuse == stats.reuse,
        after.enabled == stats.enabled,
{
    law_a_walk_finds_what_lies_below(engine.nodes(), engine.rank@, id, id);
    assert(after.calls@.take(stats.calls@.len() as int) =~= stats.calls@);
}

} // verus!
