//! The parts of an application and of a window that cached views depend on.

use crate::geometry::{Bounds, Pixels, Point};
use crate::view::cache::ViewElementState;
use std::collections::{HashMap, HashSet};
use vstd::prelude::*;

verus! {

/// Names an entity of the application.
#[derive(Clone, Copy, Debug, PartialEq, Eq, Structural)]
pub struct EntityId(pub u64);

/// Names a type. No two types have the same name.
#[derive(Clone, Copy, Debug, PartialEq, Eq, Structural)]
pub struct TypeId(pub u64);

/// Names the place of an element in the tree of elements.
#[derive(Clone, Copy, Debug, PartialEq, Eq, Structural)]
pub struct GlobalElementId(pub u64);

/// The id of an element among its siblings.
#[derive(Clone, Copy, Debug, PartialEq, Eq, Structural)]
pub enum ElementId {
    /// That of a view, by its entity.
    View(EntityId),
    /// That of a component, by its type.
    Name(TypeId),
}

/// Names a style of text. Equal styles have the same name.
#[derive(Clone, Copy, Debug, PartialEq, Eq, Structural)]
pub struct TextStyle(pub u64);

/// The keys that modify others, as they are held.
#[derive(Clone, Copy, Debug, PartialEq, Eq, Structural)]
pub struct Modifiers {
    pub control: bool,
    pub alt: bool,
    pub shift: bool,
    pub platform: bool,
    pub function: bool,
}

/// The region that painting is clipped to.
#[derive(Clone, Copy, Debug)]
pub struct ContentMask {
    pub bounds: Bounds<Pixels>,
}

/// The mouse position was read.
pub const INPUT_MOUSE: u8 = 1;

/// The modifiers were read.
pub const INPUT_MODIFIERS: u8 = 2;

// ---- lists without repetition ------------------------------------------------------------------

/// The list with the new items at its end, those left out that it already has.
pub open spec fn joined<T>(list: Seq<T>, more: Seq<T>) -> Seq<T>
    decreases more.len(),
{
    if more.len() == 0 {
        list
    } else {
        let before = joined(list, more.drop_last());
        if before.contains(more.last()) {
            before
        } else {
            before.push(more.last())
        }
    }
}

/// A joined list has the items of both lists and no others.
pub proof fn lemma_joined_contains<T>(list: Seq<T>, more: Seq<T>, item: T)
    ensures
        joined(list, more).contains(item) == (list.contains(item) || more.contains(item)),
    decreases more.len(),
{
    if more.len() > 0 {
        let shorter = more.drop_last();
        let last = more.last();
        let before = joined(list, shorter);
        lemma_joined_contains(list, shorter, item);
        assert(more.contains(item) == (shorter.contains(item) || item == last)) by {
            assert(more =~= shorter.push(last));
            lemma_push_contains(shorter, last, item);
        }
        lemma_push_contains(before, last, item);
    }
}

proof fn lemma_push_contains<T>(list: Seq<T>, last: T, item: T)
    ensures
        list.push(last).contains(item) == (list.contains(item) || item == last),
{
    let longer = list.push(last);
    if list.contains(item) {
        let i = choose|i: int| 0 <= i < list.len() && list[i] == item;
        assert(longer[i] == item);
    }
    assert(longer[list.len() as int] == last);
    if longer.contains(item) && item != last {
        let i = choose|i: int| 0 <= i < longer.len() && longer[i] == item;
        assert(list[i] == item);
    }
}

/// What is left once the last item is taken off.
pub open spec fn without_last<T>(list: Seq<T>) -> Seq<T> {
    if list.len() == 0 {
        list
    } else {
        list.drop_last()
    }
}

/// Leaving what was last entered undoes entering it.
pub proof fn law_leaving_undoes_entering<T>(list: Seq<T>, item: T)
    ensures
        without_last(list.push(item)) == list,
        without_last(Seq::<T>::empty()) == Seq::<T>::empty(),
{
    assert(without_last(list.push(item)) =~= list);
}

/// A joined list begins with the first list, has the items of both and no others, and none twice that
/// the first list does not have twice.
pub proof fn law_joining_keeps_every_item_once<T>(list: Seq<T>, more: Seq<T>, item: T)
    ensures
        joined(list, more).len() >= list.len(),
        joined(list, more).take(list.len() as int) == list,
        joined(list, more).contains(item) <==> list.contains(item) || more.contains(item),
        list.no_duplicates() ==> joined(list, more).no_duplicates(),
    decreases more.len(),
{
    lemma_joined_contains(list, more, item);
    if more.len() == 0 {
        assert(list.take(list.len() as int) =~= list);
    } else {
        let shorter = more.drop_last();
        let before = joined(list, shorter);
        law_joining_keeps_every_item_once(list, shorter, item);
        let all = joined(list, more);
        assert(all.take(list.len() as int) =~= before.take(list.len() as int));
        if list.no_duplicates() && !before.contains(more.last()) {
            assert forall|i: int, j: int|
                0 <= i < all.len() && 0 <= j < all.len() && i != j implies all[i] != all[j] by {
                if i < before.len() && j < before.len() {
                    assert(before[i] != before[j]);
                } else if i < before.len() {
                    assert(before.contains(before[i]));
                } else {
                    assert(before.contains(before[j]));
                }
            }
        }
    }
}

fn has_item(list: &Vec<u64>, item: u64) -> (r: bool)
    ensures
        r == list@.contains(item),
{
    let mut i: usize = 0;
    while i < list.len()
        invariant
            i <= list@.len(),
            forall|j: int| 0 <= j < i ==> list@[j] != item,
        decreases list@.len() - i,
    {
        if list[i] == item {
            assert(list@[i as int] == item);
            return true;
        }
        i = i + 1;
    }
    false
}

fn join(list: &mut Vec<u64>, more: &Vec<u64>)
    ensures
        final(list)@ == joined(old(list)@, more@),
{
    let mut i: usize = 0;
    while i < more.len()
        invariant
            i <= more@.len(),
            list@ == joined(old(list)@, more@.take(i as int)),
        decreases more@.len() - i,
    {
        assert(more@.take(i + 1).drop_last() =~= more@.take(i as int));
        if !has_item(list, more[i]) {
            list.push(more[i]);
        }
        i = i + 1;
    }
    assert(more@.take(i as int) =~= more@);
}

// ---- the application ---------------------------------------------------------------------------

/// What is read in a stretch of code: the numbers of entities and globals, in the order of their
/// first reads.
#[derive(Debug)]
pub struct Accessed {
    pub entities: Vec<u64>,
    pub globals: Vec<u64>,
}

impl Accessed {
    pub fn nothing() -> (r: Accessed)
        ensures
            r.entities@ == Seq::<u64>::empty(),
            r.globals@ == Seq::<u64>::empty(),
    {
        Accessed { entities: Vec::new(), globals: Vec::new() }
    }
}

/// The versions of the application's entities and globals, and what was read of them.
#[derive(Debug)]
pub struct App {
    /// How often each entity was notified. One that is not here never was.
    pub notify_versions: HashMap<u64, u64>,
    /// How often each global was changed. One that is not here never was.
    pub global_versions: HashMap<u64, u64>,
    pub accessed: Accessed,
}

impl App {
    pub fn new() -> (r: App)
        ensures
            r.notify_versions@ == Map::<u64, u64>::empty(),
            r.global_versions@ == Map::<u64, u64>::empty(),
            r.accessed.entities@ == Seq::<u64>::empty(),
            r.accessed.globals@ == Seq::<u64>::empty(),
    {
        App {
            notify_versions: HashMap::new(),
            global_versions: HashMap::new(),
            accessed: Accessed::nothing(),
        }
    }

    pub open spec fn spec_notify_version(self, entity: EntityId) -> u64 {
        if self.notify_versions@.contains_key(entity.0) {
            self.notify_versions@[entity.0]
        } else {
            0
        }
    }

    pub open spec fn spec_global_version(self, global: TypeId) -> u64 {
        if self.global_versions@.contains_key(global.0) {
            self.global_versions@[global.0]
        } else {
            0
        }
    }

    pub fn notify_version(&self, entity: EntityId) -> (r: u64)
        ensures
            r == self.spec_notify_version(entity),
    {
        broadcast use vstd::std_specs::hash::group_hash_axioms;

        match self.notify_versions.get(&entity.0) {
            Some(version) => *version,
            None => 0,
        }
    }

    pub fn global_version(&self, global: TypeId) -> (r: u64)
        ensures
            r == self.spec_global_version(global),
    {
        broadcast use vstd::std_specs::hash::group_hash_axioms;

        match self.global_versions.get(&global.0) {
            Some(version) => *version,
            None => 0,
        }
    }

    /// Records reads of entities.
    pub fn extend_accessed(&mut self, entities: &Vec<u64>)
        ensures
            final(self).accessed.entities@ == joined(old(self).accessed.entities@, entities@),
            final(self).accessed.globals == old(self).accessed.globals,
            final(self).notify_versions == old(self).notify_versions,
            final(self).global_versions == old(self).global_versions,
    {
        join(&mut self.accessed.entities, entities);
    }

    /// Records reads of globals.
    pub fn extend_accessed_globals(&mut self, globals: &Vec<u64>)
        ensures
            final(self).accessed.globals@ == joined(old(self).accessed.globals@, globals@),
            final(self).accessed.entities == old(self).accessed.entities,
            final(self).notify_versions == old(self).notify_versions,
            final(self).global_versions == old(self).global_versions,
    {
        join(&mut self.accessed.globals, globals);
    }

    /// Begins a stretch whose reads are wanted by themselves. What was read before it is returned,
    /// for `end_detection`.
    pub fn begin_detection(&mut self) -> (r: Accessed)
        ensures
            r == old(self).accessed,
            final(self).accessed.entities@ == Seq::<u64>::empty(),
            final(self).accessed.globals@ == Seq::<u64>::empty(),
            final(self).notify_versions == old(self).notify_versions,
            final(self).global_versions == old(self).global_versions,
    {
        let mut outer = Accessed::nothing();
        std::mem::swap(&mut outer, &mut self.accessed);
        outer
    }

    /// Ends a stretch. What was read in it is returned, and what was read before it and in it is
    /// what has been read now.
    pub fn end_detection(&mut self, outer: Accessed) -> (r: Accessed)
        ensures
            r == old(self).accessed,
            final(self).accessed.entities@ == joined(outer.entities@, r.entities@),
            final(self).accessed.globals@ == joined(outer.globals@, r.globals@),
            final(self).notify_versions == old(self).notify_versions,
            final(self).global_versions == old(self).global_versions,
    {
        let mut inner = outer;
        std::mem::swap(&mut inner, &mut self.accessed);
        join(&mut self.accessed.entities, &inner.entities);
        join(&mut self.accessed.globals, &inner.globals);
        inner
    }
}

// ---- frames ------------------------------------------------------------------------------------

/// A stretch of what a frame recorded.
#[derive(Clone, Copy, Debug, PartialEq, Eq, Structural)]
pub struct Span {
    pub start: usize,
    pub end: usize,
}

impl Span {
    pub open spec fn within(self, outer: Span) -> bool {
        outer.start <= self.start <= self.end <= outer.end
    }

    /// The stretch lies in a record of the given length.
    pub open spec fn fits(self, length: nat) -> bool {
        self.start <= self.end <= length
    }

    /// The stretch after everything around it moved, so that what was at `from` is at `to`.
    pub open spec fn moved(self, from: usize, to: usize) -> Span {
        Span { start: (self.start - from + to) as usize, end: (self.end - from + to) as usize }
    }

    pub fn is_within(&self, outer: &Span) -> (r: bool)
        ensures
            r == self.within(*outer),
    {
        outer.start <= self.start && self.start <= self.end && self.end <= outer.end
    }
}

/// Where a view was painted.
#[derive(Clone, Copy, Debug, PartialEq, Eq, Structural)]
pub enum PaintRange {
    /// Nowhere yet.
    Unpainted,
    /// In the frame that is shown.
    Rendered(Span),
    /// In a frame before the one that is shown. The stretch is where the view was painted then.
    Outdated(Span),
    /// In the frame that is being drawn.
    Next(Span),
}

/// The state that a view keeps from frame to frame, under its place in the tree.
#[derive(Debug)]
pub struct StateEntry {
    pub id: GlobalElementId,
    pub state: ViewElementState,
}

/// A frame: what was recorded while prepainting and painting it, item by item, and the states of
/// its views.
#[derive(Debug)]
pub struct Frame {
    pub prepaint: Vec<u64>,
    pub paint: Vec<u64>,
    pub states: Vec<StateEntry>,
}

impl Frame {
    pub fn new() -> (r: Frame)
        ensures
            r.prepaint@ == Seq::<u64>::empty(),
            r.paint@ == Seq::<u64>::empty(),
            r.states@ == Seq::<StateEntry>::empty(),
    {
        Frame { prepaint: Vec::new(), paint: Vec::new(), states: Vec::new() }
    }
}

// ---- the window --------------------------------------------------------------------------------

/// The window, as far as cached views depend on it or change it.
#[derive(Debug)]
pub struct Window {
    /// The whole window is being drawn anew, and caches are ignored.
    pub refreshing: bool,
    /// The inspector is picking an element, and nothing is cached.
    pub inspector_picking: bool,
    /// The inputs that were read, as a set of `INPUT_*` bits.
    pub input_reads: u8,
    /// The views that were notified since the last frame.
    pub dirty_views: HashSet<u64>,
    pub mouse_position: Point<Pixels>,
    pub modifiers: Modifiers,
    pub content_mask: ContentMask,
    pub text_style: TextStyle,
    /// The views that are being drawn, the innermost last.
    pub rendered_views: Vec<EntityId>,
    /// The ids that were begun with `enter_id`, the innermost last. Ids within are apart from those
    /// elsewhere.
    pub element_ids: Vec<ElementId>,
    /// The view that was last prepainted.
    pub view_id: Option<EntityId>,
    /// The frame that is shown.
    pub rendered: Frame,
    /// The frame that is being drawn.
    pub next: Frame,
}

/// The state of a view of the shown frame lies within what that frame recorded.
pub open spec fn rendered_state_fits(rendered: Frame, state: ViewElementState) -> bool {
    &&& state.prepaint_range.fits(rendered.prepaint@.len())
    &&& match state.paint_range {
        PaintRange::Unpainted => true,
        PaintRange::Rendered(span) => span.fits(rendered.paint@.len()),
        PaintRange::Outdated(_) => true,
        PaintRange::Next(_) => false,
    }
}

/// The state of a view of the frame that is being drawn lies within what the two frames recorded.
pub open spec fn next_state_fits(rendered: Frame, next: Frame, state: ViewElementState) -> bool {
    &&& state.prepaint_range.fits(next.prepaint@.len())
    &&& match state.paint_range {
        PaintRange::Unpainted => true,
        PaintRange::Rendered(span) => span.fits(rendered.paint@.len()),
        PaintRange::Outdated(_) => true,
        PaintRange::Next(span) => span.fits(next.paint@.len()),
    }
}

/// The index of the first state under an id.
pub open spec fn position(states: Seq<StateEntry>, id: GlobalElementId) -> Option<int>
    decreases states.len(),
{
    if states.len() == 0 {
        None
    } else {
        match position(states.drop_last(), id) {
            Some(i) => Some(i),
            None => if states.last().id == id {
                Some(states.len() - 1)
            } else {
                None
            },
        }
    }
}

/// The states that stay where they are when a stretch of prepainting is repeated.
pub open spec fn outside(states: Seq<StateEntry>, nested: Seq<u64>, span: Span) -> Seq<StateEntry>
    decreases states.len(),
{
    if states.len() == 0 {
        seq![]
    } else if states.last().follows(nested, span) {
        outside(states.drop_last(), nested, span)
    } else {
        outside(states.drop_last(), nested, span).push(states.last())
    }
}

/// The states that move along when a stretch of prepainting is repeated at `to`.
pub open spec fn carried(
    states: Seq<StateEntry>,
    nested: Seq<u64>,
    span: Span,
    to: usize,
) -> Seq<StateEntry>
    decreases states.len(),
{
    if states.len() == 0 {
        seq![]
    } else if states.last().follows(nested, span) {
        carried(states.drop_last(), nested, span, to).push(
            states.last().prepainted_at(span.start, to),
        )
    } else {
        carried(states.drop_last(), nested, span, to)
    }
}

impl StateEntry {
    /// The state of a nested view that was prepainted within a stretch.
    pub open spec fn follows(self, nested: Seq<u64>, span: Span) -> bool {
        nested.contains(self.id.0) && self.state.prepaint_range.within(span)
    }

    /// The state once what was prepainted at `from` is at `to`.
    pub open spec fn prepainted_at(self, from: usize, to: usize) -> StateEntry {
        StateEntry {
            state: ViewElementState {
                prepaint_range: self.state.prepaint_range.moved(from, to),
                ..self.state
            },
            ..self
        }
    }

    /// The state once a stretch of the shown frame's painting is repeated at `to`.
    pub open spec fn painted_at(self, nested: Seq<u64>, span: Span, to: usize) -> StateEntry {
        match self.state.paint_range {
            PaintRange::Rendered(range) if nested.contains(self.id.0) && range.within(
                span,
            ) => StateEntry {
                state: ViewElementState {
                    paint_range: PaintRange::Next(range.moved(span.start, to)),
                    ..self.state
                },
                ..self
            },
            _ => self,
        }
    }

    /// The state once the frame is shown. Where the view had no part in its painting, it keeps the
    /// stretch of the frame in which it last had.
    pub open spec fn shown(self) -> StateEntry {
        StateEntry {
            state: ViewElementState {
                paint_range: match self.state.paint_range {
                    PaintRange::Next(span) => PaintRange::Rendered(span),
                    PaintRange::Rendered(span) => PaintRange::Outdated(span),
                    range => range,
                },
                ..self.state
            },
            ..self
        }
    }
}

/// Appends a stretch of one record to another.
fn repeat(from: &Vec<u64>, span: Span, to: &mut Vec<u64>)
    requires
        span.fits(from@.len()),
    ensures
        final(to)@ == old(to)@ + from@.subrange(span.start as int, span.end as int),
{
    let mut i: usize = span.start;
    while i < span.end
        invariant
            span.start <= i <= span.end,
            span.fits(from@.len()),
            to@ == old(to)@ + from@.subrange(span.start as int, i as int),
        decreases span.end - i,
    {
        to.push(from[i]);
        i = i + 1;
        assert(to@ =~= old(to)@ + from@.subrange(span.start as int, i as int));
    }
}

impl Window {
    /// Everything but the frames.
    pub open spec fn same_but_frames(self, other: Window) -> bool {
        self == Window { rendered: self.rendered, next: self.next, ..other }
    }

    pub open spec fn wf(self) -> bool {
        &&& forall|i: int|
            0 <= i < self.rendered.states@.len() ==> rendered_state_fits(
                self.rendered,
                (#[trigger] self.rendered.states@[i]).state,
            )
        &&& forall|i: int|
            0 <= i < self.next.states@.len() ==> next_state_fits(
                self.rendered,
                self.next,
                (#[trigger] self.next.states@[i]).state,
            )
    }

    /// The state that a view has under an id: of the frame that is being drawn, if it was there
    /// already, or of the one that is shown.
    pub open spec fn spec_state(self, id: GlobalElementId) -> Option<ViewElementState> {
        match position(self.next.states@, id) {
            Some(i) => Some(self.next.states@[i].state),
            None => match position(self.rendered.states@, id) {
                Some(i) => Some(self.rendered.states@[i].state),
                None => None,
            },
        }
    }

    pub fn prepaint_index(&self) -> (r: usize)
        ensures
            r == self.next.prepaint@.len(),
    {
        self.next.prepaint.len()
    }

    pub fn paint_index(&self) -> (r: usize)
        ensures
            r == self.next.paint@.len(),
    {
        self.next.paint.len()
    }

    /// Repeats what the shown frame recorded in a stretch of its prepainting. The states of the
    /// nested views that were prepainted in it move along.
    pub fn reuse_prepaint(&mut self, span: Span, nested: &Vec<u64>)
        requires
            old(self).wf(),
            span.fits(old(self).rendered.prepaint@.len()),
        ensures
            final(self).wf(),
            final(self).same_but_frames(*old(self)),
            final(self).rendered.prepaint == old(self).rendered.prepaint,
            final(self).rendered.paint == old(self).rendered.paint,
            final(self).next.paint == old(self).next.paint,
            final(self).next.prepaint@ == old(self).next.prepaint@
                + old(self).rendered.prepaint@.subrange(span.start as int, span.end as int),
            final(self).rendered.states@ == outside(old(self).rendered.states@, nested@, span),
            final(self).next.states@ == old(self).next.states@ + carried(
                old(self).rendered.states@,
                nested@,
                span,
                old(self).next.prepaint@.len() as usize,
            ),
    {
        let to = self.next.prepaint.len();
        repeat(&self.rendered.prepaint, span, &mut self.next.prepaint);
        let total = self.next.prepaint.len();
        assert(total == to + (span.end - span.start));
        let ghost all = self.rendered.states@;
        let ghost first = self.next.states@;
        let ghost mut done: int = 0;
        let mut i: usize = 0;
        while i < self.rendered.states.len()
            invariant
                0 <= done <= all.len(),
                i == outside(all.take(done), nested@, span).len(),
                self.rendered.states@ == outside(all.take(done), nested@, span) + all.skip(done),
                self.next.states@ == first + carried(all.take(done), nested@, span, to),
                all == old(self).rendered.states@,
                first == old(self).next.states@,
                to == old(self).next.prepaint@.len(),
                total == to + (span.end - span.start),
                span.fits(old(self).rendered.prepaint@.len()),
                self.same_but_frames(*old(self)),
                self.rendered.prepaint == old(self).rendered.prepaint,
                self.rendered.paint == old(self).rendered.paint,
                self.next.paint == old(self).next.paint,
                self.next.prepaint@ == old(self).next.prepaint@
                    + old(self).rendered.prepaint@.subrange(span.start as int, span.end as int),
            decreases all.len() - done,
        {
            proof {
                assert(all.take(done + 1).drop_last() =~= all.take(done));
                assert(all.take(done + 1).last() == all[done]);
                assert(self.rendered.states@[i as int] == all[done]);
            }
            if has_item(nested, self.rendered.states[i].id.0)
                && self.rendered.states[i].state.prepaint_range.is_within(&span) {
                let ghost before = self.rendered.states@;
                let mut entry = self.rendered.states.remove(i);
                let range = entry.state.prepaint_range;
                entry.state.prepaint_range =
                Span { start: range.start - span.start + to, end: range.end - span.start + to };
                self.next.states.push(entry);
                assert(self.rendered.states@ =~= outside(all.take(done + 1), nested@, span) + all.skip(
                    done + 1,
                ));
                assert(self.next.states@ =~= first + carried(all.take(done + 1), nested@, span, to));
            } else {
                i = i + 1;
                assert(self.rendered.states@ =~= outside(all.take(done + 1), nested@, span) + all.skip(
                    done + 1,
                ));
            }
            proof {
                done = done + 1;
            }
        }
        proof {
            assert(done == all.len());
            assert(all.take(done) =~= all);
            assert(self.rendered.states@ =~= outside(all, nested@, span));
            lemma_outside(all, nested@, span);
            lemma_carried(all, nested@, span, to);
            assert forall|i: int| 0 <= i < self.rendered.states@.len() implies rendered_state_fits(
                self.rendered,
                (#[trigger] self.rendered.states@[i]).state,
            ) by {
                let j = choose|j: int|
                    0 <= j < all.len() && #[trigger] all[j] == self.rendered.states@[i];
                assert(rendered_state_fits(old(self).rendered, all[j].state));
            }
            let more = carried(all, nested@, span, to);
            assert forall|i: int| 0 <= i < self.next.states@.len() implies next_state_fits(
                self.rendered,
                self.next,
                (#[trigger] self.next.states@[i]).state,
            ) by {
                if i < first.len() {
                    assert(self.next.states@[i] == first[i]);
                    assert(next_state_fits(old(self).rendered, old(self).next, first[i].state));
                } else {
                    assert(self.next.states@[i] == more[i - first.len()]);
                    assert(moved_from(all, nested@, span, to, more[i - first.len()]));
                    let j = choose|j: int|
                        0 <= j < all.len() && (#[trigger] all[j]).follows(nested@, span)
                            && all[j].prepainted_at(span.start, to) == more[i - first.len()];
                    assert(rendered_state_fits(old(self).rendered, all[j].state));
                }
            }
        }
    }

    /// Repeats what the shown frame recorded in a stretch of its painting. The ranges of the nested
    /// views that were painted in it move along.
    pub fn reuse_paint(&mut self, span: Span, nested: &Vec<u64>)
        requires
            old(self).wf(),
            span.fits(old(self).rendered.paint@.len()),
        ensures
            final(self).wf(),
            final(self).same_but_frames(*old(self)),
            final(self).rendered == old(self).rendered,
            final(self).next.prepaint == old(self).next.prepaint,
            final(self).next.paint@ == old(self).next.paint@
                + old(self).rendered.paint@.subrange(span.start as int, span.end as int),
            final(self).next.states@ == old(self).next.states@.map_values(
                |entry: StateEntry|
                    entry.painted_at(nested@, span, old(self).next.paint@.len() as usize),
            ),
    {
        let to = self.next.paint.len();
        repeat(&self.rendered.paint, span, &mut self.next.paint);
        let total = self.next.paint.len();
        assert(total == to + (span.end - span.start));
        let ghost states = self.next.states@;
        let mut i: usize = 0;
        while i < self.next.states.len()
            invariant
                i <= self.next.states@.len(),
                states == old(self).next.states@,
                self.next.states@.len() == states.len(),
                forall|j: int|
                    0 <= j < i ==> #[trigger] self.next.states@[j] == states[j].painted_at(
                        nested@,
                        span,
                        to,
                    ),
                forall|j: int| i <= j < states.len() ==> #[trigger] self.next.states@[j] == states[j],
                to == old(self).next.paint@.len(),
                total == to + (span.end - span.start),
                span.fits(old(self).rendered.paint@.len()),
                old(self).wf(),
                self.same_but_frames(*old(self)),
                self.rendered == old(self).rendered,
                self.next.prepaint == old(self).next.prepaint,
                self.next.paint@ == old(self).next.paint@ + old(self).rendered.paint@.subrange(
                    span.start as int,
                    span.end as int,
                ),
            decreases states.len() - i,
        {
            assert(next_state_fits(old(self).rendered, old(self).next, states[i as int].state));
            if let PaintRange::Rendered(range) = self.next.states[i].state.paint_range {
                if has_item(nested, self.next.states[i].id.0) && range.is_within(&span) {
                    self.next.states[i].state.paint_range =
                    PaintRange::Next(
                        Span { start: range.start - span.start + to, end: range.end - span.start + to },
                    );
                }
            }
            i = i + 1;
        }
        proof {
            assert(self.next.states@ =~= states.map_values(
                |entry: StateEntry| entry.painted_at(nested@, span, to),
            ));
            assert forall|i: int| 0 <= i < self.next.states@.len() implies next_state_fits(
                self.rendered,
                self.next,
                (#[trigger] self.next.states@[i]).state,
            ) by {
                assert(next_state_fits(old(self).rendered, old(self).next, states[i].state));
            }
        }
    }

    /// Takes the state of a view out of the window.
    pub fn take_state(&mut self, id: GlobalElementId) -> (r: Option<ViewElementState>)
        requires
            old(self).wf(),
        ensures
            final(self).wf(),
            final(self).same_but_frames(*old(self)),
            r == old(self).spec_state(id),
            final(self).rendered.prepaint == old(self).rendered.prepaint,
            final(self).rendered.paint == old(self).rendered.paint,
            final(self).next.prepaint == old(self).next.prepaint,
            final(self).next.paint == old(self).next.paint,
            final(self).next.states@ == match position(old(self).next.states@, id) {
                Some(i) => old(self).next.states@.remove(i),
                None => old(self).next.states@,
            },
            final(self).rendered.states@ == match position(old(self).next.states@, id) {
                Some(_) => old(self).rendered.states@,
                None => match position(old(self).rendered.states@, id) {
                    Some(i) => old(self).rendered.states@.remove(i),
                    None => old(self).rendered.states@,
                },
            },
            r matches Some(state) ==> if position(old(self).next.states@, id) is Some {
                next_state_fits(final(self).rendered, final(self).next, state)
            } else {
                rendered_state_fits(final(self).rendered, state)
            },
    {
        if let Some(i) = find_state(&self.next.states, id) {
            assert(next_state_fits(self.rendered, self.next, self.next.states@[i as int].state));
            let entry = self.next.states.remove(i);
            return Some(entry.state);
        }
        if let Some(i) = find_state(&self.rendered.states, id) {
            assert(rendered_state_fits(self.rendered, self.rendered.states@[i as int].state));
            let entry = self.rendered.states.remove(i);
            return Some(entry.state);
        }
        None
    }

    /// Keeps the state of a view with the frame that is being drawn.
    pub fn put_state(&mut self, id: GlobalElementId, state: ViewElementState)
        requires
            old(self).wf(),
            next_state_fits(old(self).rendered, old(self).next, state),
        ensures
            final(self).wf(),
            final(self).same_but_frames(*old(self)),
            final(self).rendered == old(self).rendered,
            final(self).next.prepaint == old(self).next.prepaint,
            final(self).next.paint == old(self).next.paint,
            final(self).next.states@ == old(self).next.states@.push(StateEntry { id, state }),
    {
        self.next.states.push(StateEntry { id, state });
    }

    /// Begins to draw a view.
    pub fn enter_view(&mut self, entity: EntityId)
        ensures
            final(self).rendered_views@ == old(self).rendered_views@.push(entity),
            *final(self) == (Window {
                rendered_views: final(self).rendered_views,
                ..*old(self)
            }),
    {
        self.rendered_views.push(entity);
    }

    /// Ends drawing the view that was last begun.
    pub fn leave_view(&mut self)
        ensures
            final(self).rendered_views@ == without_last(old(self).rendered_views@),
            final(self).rendered_views@ == if old(self).rendered_views@.len() == 0 {
                old(self).rendered_views@
            } else {
                old(self).rendered_views@.drop_last()
            },
            *final(self) == (Window {
                rendered_views: final(self).rendered_views,
                ..*old(self)
            }),
    {
        self.rendered_views.pop();
    }

    /// Begins an id space.
    pub fn enter_id(&mut self, id: ElementId)
        ensures
            final(self).element_ids@ == old(self).element_ids@.push(id),
            *final(self) == (Window { element_ids: final(self).element_ids, ..*old(self) }),
    {
        self.element_ids.push(id);
    }

    /// Ends the id space that was last begun.
    pub fn leave_id(&mut self)
        ensures
            final(self).element_ids@ == without_last(old(self).element_ids@),
            final(self).element_ids@ == if old(self).element_ids@.len() == 0 {
                old(self).element_ids@
            } else {
                old(self).element_ids@.drop_last()
            },
            *final(self) == (Window { element_ids: final(self).element_ids, ..*old(self) }),
    {
        self.element_ids.pop();
    }

    /// Shows the frame that was drawn, and begins the next one. The states of views that had no
    /// part in it are dropped.
    pub fn finish_frame(&mut self)
        requires
            old(self).wf(),
        ensures
            final(self).wf(),
            final(self).same_but_frames(*old(self)),
            final(self).rendered.prepaint == old(self).next.prepaint,
            final(self).rendered.paint == old(self).next.paint,
            final(self).rendered.states@ == old(self).next.states@.map_values(
                |entry: StateEntry| entry.shown(),
            ),
            final(self).next.prepaint@ == Seq::<u64>::empty(),
            final(self).next.paint@ == Seq::<u64>::empty(),
            final(self).next.states@ == Seq::<StateEntry>::empty(),
    {
        let ghost states = self.next.states@;
        let mut frame = Frame::new();
        std::mem::swap(&mut frame, &mut self.next);
        let mut i: usize = 0;
        while i < frame.states.len()
            invariant
                i <= frame.states@.len(),
                frame.states@.len() == states.len(),
                frame.prepaint == old(self).next.prepaint,
                frame.paint == old(self).next.paint,
                forall|j: int| 0 <= j < i ==> #[trigger] frame.states@[j] == states[j].shown(),
                forall|j: int| i <= j < states.len() ==> #[trigger] frame.states@[j] == states[j],
            decreases states.len() - i,
        {
            let range = match frame.states[i].state.paint_range {
                PaintRange::Next(span) => PaintRange::Rendered(span),
                PaintRange::Rendered(span) => PaintRange::Outdated(span),
                range => range,
            };
            frame.states[i].state.paint_range = range;
            i = i + 1;
        }
        self.rendered = frame;
        proof {
            assert(self.rendered.states@ =~= states.map_values(|entry: StateEntry| entry.shown()));
            assert forall|i: int| 0 <= i < self.rendered.states@.len() implies rendered_state_fits(
                self.rendered,
                (#[trigger] self.rendered.states@[i]).state,
            ) by {
                assert(next_state_fits(old(self).rendered, old(self).next, states[i].state));
            }
        }
    }
}

fn find_state(states: &Vec<StateEntry>, id: GlobalElementId) -> (r: Option<usize>)
    ensures
        match r {
            Some(i) => position(states@, id) == Some(i as int) && i < states@.len(),
            None => position(states@, id) is None,
        },
{
    let mut i: usize = 0;
    while i < states.len()
        invariant
            i <= states@.len(),
            position(states@.take(i as int), id) is None,
        decreases states@.len() - i,
    {
        proof {
            assert(states@.take(i + 1).drop_last() =~= states@.take(i as int));
        }
        if states[i].id == id {
            proof {
                lemma_position_stays(states@, id, i + 1);
            }
            return Some(i);
        }
        i = i + 1;
    }
    assert(states@.take(i as int) =~= states@);
    None
}

/// The first state under an id stays the first when the list grows.
proof fn lemma_position_stays(states: Seq<StateEntry>, id: GlobalElementId, count: int)
    requires
        0 <= count <= states.len(),
        position(states.take(count), id) is Some,
    ensures
        position(states, id) == position(states.take(count), id),
    decreases states.len() - count,
{
    if count == states.len() {
        assert(states.take(count) =~= states);
    } else {
        assert(states.take(count + 1).drop_last() =~= states.take(count));
        lemma_position_stays(states, id, count + 1);
    }
}

/// Every state that stays was in the list.
pub proof fn lemma_outside(states: Seq<StateEntry>, nested: Seq<u64>, span: Span)
    ensures
        forall|i: int|
            0 <= i < outside(states, nested, span).len() ==> states.contains(
                #[trigger] outside(states, nested, span)[i],
            ),
    decreases states.len(),
{
    if states.len() > 0 {
        let shorter = states.drop_last();
        lemma_outside(shorter, nested, span);
        let all = outside(states, nested, span);
        let before = outside(shorter, nested, span);
        assert forall|i: int| 0 <= i < all.len() implies states.contains(#[trigger] all[i]) by {
            if i < before.len() {
                assert(all[i] == before[i]);
                let j = choose|j: int| 0 <= j < shorter.len() && shorter[j] == before[i];
                assert(states[j] == all[i]);
            } else {
                assert(states[states.len() - 1] == all[i]);
            }
        }
    }
}

/// A state of a list, moved along, is a given one.
pub open spec fn moved_from(
    states: Seq<StateEntry>,
    nested: Seq<u64>,
    span: Span,
    to: usize,
    entry: StateEntry,
) -> bool {
    exists|j: int|
        0 <= j < states.len() && (#[trigger] states[j]).follows(nested, span)
            && states[j].prepainted_at(span.start, to) == entry
}

/// Every state that is carried along was in the list.
pub proof fn lemma_carried(states: Seq<StateEntry>, nested: Seq<u64>, span: Span, to: usize)
    ensures
        forall|i: int|
            0 <= i < carried(states, nested, span, to).len() ==> moved_from(
                states,
                nested,
                span,
                to,
                #[trigger] carried(states, nested, span, to)[i],
            ),
    decreases states.len(),
{
    if states.len() > 0 {
        let shorter = states.drop_last();
        lemma_carried(shorter, nested, span, to);
        let all = carried(states, nested, span, to);
        let before = carried(shorter, nested, span, to);
        assert forall|i: int| 0 <= i < all.len() implies moved_from(
            states,
            nested,
            span,
            to,
            #[trigger] all[i],
        ) by {
            if i < before.len() {
                assert(all[i] == before[i]);
                let j = choose|j: int|
                    0 <= j < shorter.len() && (#[trigger] shorter[j]).follows(nested, span)
                        && shorter[j].prepainted_at(span.start, to) == before[i];
                assert(states[j] == shorter[j]);
            } else {
                let j = states.len() - 1;
                assert(states[j].follows(nested, span));
            }
        }
    }
}

} // verus!
