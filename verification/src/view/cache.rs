//! What a cached view depends on, and when it is drawn anew.
//!
//! Rendering, layout and painting themselves are not done here. A function that needs one of them
//! done stops and says so; the caller does it and calls the function that takes up from there.

use crate::geometry::{Bounds, Pixels, Point};
use crate::view::stats::{counted, CacheOutcome, ViewCacheStats};
use crate::view::window::{
    carried, joined, outside, position, without_last, Accessed, App, ContentMask, ElementId, EntityId,
    GlobalElementId, Modifiers, PaintRange, Span, StateEntry, TextStyle, TypeId, Window,
    INPUT_MODIFIERS, INPUT_MOUSE,
};
use vstd::prelude::*;

verus! {

// ---- dependencies ------------------------------------------------------------------------------

/// What a cached view's output depends on besides its own notifications, so that it is only reused
/// while none of it has changed.
#[derive(Debug)]
pub struct ViewDeps {
    /// Every entity that was read, with the version that it had.
    pub entities: Vec<(u64, u64)>,
    /// Every global that was read, with its version.
    pub globals: Vec<(u64, u64)>,
    /// The same globals by themselves, to be recorded for an enclosing view on reuse.
    pub global_types: Vec<u64>,
    /// The mouse position and modifiers that the view saw, if it read them. Nothing notifies a
    /// view when they change.
    pub mouse: Option<Point<Pixels>>,
    pub modifiers: Option<Modifiers>,
}

/// Entities with the versions that they have.
pub open spec fn entity_versions(cx: App, entities: Seq<u64>) -> Seq<(u64, u64)> {
    entities.map_values(|entity: u64| (entity, cx.spec_notify_version(EntityId(entity))))
}

/// Globals with the versions that they have.
pub open spec fn global_versions(cx: App, globals: Seq<u64>) -> Seq<(u64, u64)> {
    globals.map_values(|global: u64| (global, cx.spec_global_version(TypeId(global))))
}

/// The mouse position that is remembered once `inputs` were read.
pub open spec fn seen_mouse(
    before: Option<Point<Pixels>>,
    window: Window,
    inputs: u8,
) -> Option<Point<Pixels>> {
    if inputs & INPUT_MOUSE != 0 {
        Some(window.mouse_position)
    } else {
        before
    }
}

/// The modifiers that are remembered once `inputs` were read.
pub open spec fn seen_modifiers(
    before: Option<Modifiers>,
    window: Window,
    inputs: u8,
) -> Option<Modifiers> {
    if inputs & INPUT_MODIFIERS != 0 {
        Some(window.modifiers)
    } else {
        before
    }
}

fn add_entity_versions(cx: &App, entities: &Vec<u64>, list: &mut Vec<(u64, u64)>)
    ensures
        final(list)@ == old(list)@ + entity_versions(*cx, entities@),
{
    let mut i: usize = 0;
    while i < entities.len()
        invariant
            i <= entities@.len(),
            list@ == old(list)@ + entity_versions(*cx, entities@.take(i as int)),
        decreases entities@.len() - i,
    {
        list.push((entities[i], cx.notify_version(EntityId(entities[i]))));
        i = i + 1;
        assert(list@ =~= old(list)@ + entity_versions(*cx, entities@.take(i as int)));
    }
    assert(entities@.take(i as int) =~= entities@);
}

fn add_global_versions(cx: &App, globals: &Vec<u64>, list: &mut Vec<(u64, u64)>)
    ensures
        final(list)@ == old(list)@ + global_versions(*cx, globals@),
{
    let mut i: usize = 0;
    while i < globals.len()
        invariant
            i <= globals@.len(),
            list@ == old(list)@ + global_versions(*cx, globals@.take(i as int)),
        decreases globals@.len() - i,
    {
        list.push((globals[i], cx.global_version(TypeId(globals[i]))));
        i = i + 1;
        assert(list@ =~= old(list)@ + global_versions(*cx, globals@.take(i as int)));
    }
    assert(globals@.take(i as int) =~= globals@);
}

fn add_all(list: &mut Vec<u64>, more: &Vec<u64>)
    ensures
        final(list)@ == old(list)@ + more@,
{
    let mut i: usize = 0;
    while i < more.len()
        invariant
            i <= more@.len(),
            list@ == old(list)@ + more@.take(i as int),
        decreases more@.len() - i,
    {
        list.push(more[i]);
        i = i + 1;
        assert(list@ =~= old(list)@ + more@.take(i as int));
    }
    assert(more@.take(i as int) =~= more@);
}

impl ViewDeps {
    /// The dependencies on what was read, as it is now.
    pub fn capture(
        cx: &App,
        window: &Window,
        entities: &Vec<u64>,
        globals: Vec<u64>,
        inputs: u8,
    ) -> (r: ViewDeps)
        ensures
            r.entities@ == entity_versions(*cx, entities@),
            r.globals@ == global_versions(*cx, globals@),
            r.global_types@ == globals@,
            r.mouse == seen_mouse(None, *window, inputs),
            r.modifiers == seen_modifiers(None, *window, inputs),
    {
        let mut entity_list: Vec<(u64, u64)> = Vec::new();
        add_entity_versions(cx, entities, &mut entity_list);
        let mut global_list: Vec<(u64, u64)> = Vec::new();
        add_global_versions(cx, &globals, &mut global_list);
        let mut deps = ViewDeps {
            entities: entity_list,
            globals: global_list,
            global_types: globals,
            mouse: None,
            modifiers: None,
        };
        deps.capture_inputs(window, inputs);
        deps
    }

    /// Remembers the current value of every input in `inputs`, a set of `INPUT_*` bits.
    pub fn capture_inputs(&mut self, window: &Window, inputs: u8)
        ensures
            final(self).entities == old(self).entities,
            final(self).globals == old(self).globals,
            final(self).global_types == old(self).global_types,
            final(self).mouse == seen_mouse(old(self).mouse, *window, inputs),
            final(self).modifiers == seen_modifiers(old(self).modifiers, *window, inputs),
    {
        if inputs & INPUT_MOUSE != 0 {
            self.mouse = Some(window.mouse_position);
        }
        if inputs & INPUT_MODIFIERS != 0 {
            self.modifiers = Some(window.modifiers);
        }
    }

    /// Adds the dependencies on what was read since.
    pub fn capture_more(&mut self, cx: &App, window: &Window, accessed: &Accessed, inputs: u8)
        ensures
            final(self).entities@ == old(self).entities@ + entity_versions(
                *cx,
                accessed.entities@,
            ),
            final(self).globals@ == old(self).globals@ + global_versions(*cx, accessed.globals@),
            final(self).global_types@ == old(self).global_types@ + accessed.globals@,
            final(self).mouse == seen_mouse(old(self).mouse, *window, inputs),
            final(self).modifiers == seen_modifiers(old(self).modifiers, *window, inputs),
    {
        add_entity_versions(cx, &accessed.entities, &mut self.entities);
        add_global_versions(cx, &accessed.globals, &mut self.globals);
        add_all(&mut self.global_types, &accessed.globals);
        self.capture_inputs(window, inputs);
    }

    pub open spec fn spec_inputs(self) -> u8 {
        (if self.mouse is Some {
            INPUT_MOUSE
        } else {
            0
        }) | (if self.modifiers is Some {
            INPUT_MODIFIERS
        } else {
            0
        })
    }

    /// The inputs that are remembered, as a set of `INPUT_*` bits.
    pub fn inputs(&self) -> (r: u8)
        ensures
            r == self.spec_inputs(),
    {
        let mouse: u8 = if self.mouse.is_some() {
            INPUT_MOUSE
        } else {
            0
        };
        let modifiers: u8 = if self.modifiers.is_some() {
            INPUT_MODIFIERS
        } else {
            0
        };
        mouse | modifiers
    }

    /// An input that is remembered has another value now.
    pub open spec fn spec_inputs_changed(self, window: Window) -> bool {
        ||| self.mouse matches Some(mouse) && !mouse.same(window.mouse_position)
        ||| self.modifiers matches Some(modifiers) && modifiers != window.modifiers
    }

    pub fn inputs_changed(&self, window: &Window) -> (r: bool)
        ensures
            r == self.spec_inputs_changed(*window),
    {
        let moved = match self.mouse {
            Some(mouse) => !mouse.is_same(&window.mouse_position),
            None => false,
        };
        let pressed = match self.modifiers {
            Some(modifiers) => modifiers != window.modifiers,
            None => false,
        };
        moved || pressed
    }

    /// An entity that was read has another version now.
    pub open spec fn spec_entities_changed(self, cx: App) -> bool {
        exists|i: int|
            0 <= i < self.entities@.len() && cx.spec_notify_version(
                EntityId((#[trigger] self.entities@[i]).0),
            ) != self.entities@[i].1
    }

    pub fn entities_changed(&self, cx: &App) -> (r: bool)
        ensures
            r == self.spec_entities_changed(*cx),
    {
        let mut i: usize = 0;
        while i < self.entities.len()
            invariant
                i <= self.entities@.len(),
                forall|j: int|
                    0 <= j < i ==> cx.spec_notify_version(
                        EntityId((#[trigger] self.entities@[j]).0),
                    ) == self.entities@[j].1,
            decreases self.entities@.len() - i,
        {
            let (entity, version) = self.entities[i];
            if cx.notify_version(EntityId(entity)) != version {
                assert(self.entities@[i as int] == (entity, version));
                return true;
            }
            i = i + 1;
        }
        false
    }

    /// A global that was read has another version now.
    pub open spec fn spec_globals_changed(self, cx: App) -> bool {
        exists|i: int|
            0 <= i < self.globals@.len() && cx.spec_global_version(
                TypeId((#[trigger] self.globals@[i]).0),
            ) != self.globals@[i].1
    }

    pub fn globals_changed(&self, cx: &App) -> (r: bool)
        ensures
            r == self.spec_globals_changed(*cx),
    {
        let mut i: usize = 0;
        while i < self.globals.len()
            invariant
                i <= self.globals@.len(),
                forall|j: int|
                    0 <= j < i ==> cx.spec_global_version(
                        TypeId((#[trigger] self.globals@[j]).0),
                    ) == self.globals@[j].1,
            decreases self.globals@.len() - i,
        {
            let (global, version) = self.globals[i];
            if cx.global_version(TypeId(global)) != version {
                assert(self.globals@[i as int] == (global, version));
                return true;
            }
            i = i + 1;
        }
        false
    }
}

// ---- the decision ------------------------------------------------------------------------------

#[derive(Clone, Copy, Debug)]
pub struct ViewElementCacheKey {
    pub bounds: Bounds<Pixels>,
    pub content_mask: ContentMask,
    pub text_style: TextStyle,
}

/// What a cached view keeps from frame to frame.
#[derive(Debug)]
pub struct ViewElementState {
    pub prepaint_range: Span,
    pub paint_range: PaintRange,
    pub cache_key: ViewElementCacheKey,
    pub accessed_entities: Vec<u64>,
    /// The cached views that are drawn within this one, by the numbers of their places.
    pub nested: Vec<u64>,
    pub deps: ViewDeps,
}

/// Whether a view is reused, and the first reason why not.
pub open spec fn cache_outcome(
    state: Option<ViewElementState>,
    entity: EntityId,
    bounds: Bounds<Pixels>,
    window: Window,
    cx: App,
) -> CacheOutcome {
    match state {
        None => CacheOutcome::First,
        Some(state) => if !state.cache_key.bounds.same(bounds) {
            CacheOutcome::Bounds
        } else if !state.cache_key.content_mask.bounds.same(window.content_mask.bounds) {
            CacheOutcome::Mask
        } else if state.cache_key.text_style != window.text_style {
            CacheOutcome::TextStyle
        } else if window.dirty_views@.contains(entity.0) {
            CacheOutcome::Dirty
        } else if window.refreshing {
            CacheOutcome::Refreshing
        } else if state.deps.spec_inputs_changed(window) {
            CacheOutcome::Input
        } else if state.deps.spec_entities_changed(cx) {
            CacheOutcome::EntityDep
        } else if state.deps.spec_globals_changed(cx) {
            CacheOutcome::GlobalDep
        } else {
            CacheOutcome::Hit
        },
    }
}

fn decide(
    state: &Option<ViewElementState>,
    entity: EntityId,
    bounds: Bounds<Pixels>,
    window: &Window,
    cx: &App,
) -> (r: CacheOutcome)
    ensures
        r == cache_outcome(*state, entity, bounds, *window, *cx),
{
    broadcast use vstd::std_specs::hash::group_hash_axioms;

    match state {
        None => CacheOutcome::First,
        Some(state) => if !state.cache_key.bounds.is_same(&bounds) {
            CacheOutcome::Bounds
        } else if !state.cache_key.content_mask.bounds.is_same(&window.content_mask.bounds) {
            CacheOutcome::Mask
        } else if state.cache_key.text_style != window.text_style {
            CacheOutcome::TextStyle
        } else if window.dirty_views.contains(&entity.0) {
            CacheOutcome::Dirty
        } else if window.refreshing {
            CacheOutcome::Refreshing
        } else if state.deps.inputs_changed(window) {
            CacheOutcome::Input
        } else if state.deps.entities_changed(cx) {
            CacheOutcome::EntityDep
        } else if state.deps.globals_changed(cx) {
            CacheOutcome::GlobalDep
        } else {
            CacheOutcome::Hit
        },
    }
}

// ---- layout ------------------------------------------------------------------------------------

/// What is to be laid out for a view.
#[derive(Clone, Copy, Debug, PartialEq, Eq, Structural)]
pub enum LayoutStep {
    /// A box of the view's cached style, without contents.
    CachedStyle,
    /// The view's contents, which are rendered now.
    Contents,
}

/// Begins the layout of a view. `Window::leave_view` ends it.
pub fn request_layout_view(entity: EntityId, cached: bool, window: &mut Window) -> (r: LayoutStep)
    ensures
        r is CachedStyle == (cached && !old(window).inspector_picking),
        final(window).rendered_views@ == old(window).rendered_views@.push(entity),
        *final(window) == (Window {
            rendered_views: final(window).rendered_views,
            ..*old(window)
        }),
{
    window.enter_view(entity);
    let caching_disabled = window.inspector_picking;
    if cached && !caching_disabled {
        LayoutStep::CachedStyle
    } else {
        LayoutStep::Contents
    }
}

/// A component is drawn in an id space of its own, that of the name of its type.
pub open spec fn began_component(before: Window, name: TypeId, after: Window) -> bool {
    &&& after.element_ids@ == before.element_ids@.push(ElementId::Name(name))
    &&& after == Window { element_ids: after.element_ids, ..before }
}

/// Begins the layout of a component, which is rendered now. `Window::leave_id` ends it.
pub fn request_layout_component(name: TypeId, window: &mut Window) -> (r: LayoutStep)
    ensures
        r is Contents,
        began_component(*old(window), name, *final(window)),
{
    window.enter_id(ElementId::Name(name));
    LayoutStep::Contents
}

// ---- prepaint ----------------------------------------------------------------------------------

/// What a prepaint that renders a view needs once the view is rendered.
#[derive(Debug)]
pub struct Rendering {
    /// What was read before the view was begun.
    pub outer_accessed: Accessed,
    pub outer_input_reads: u8,
    pub prepaint_start: usize,
    /// The number of states that the frame had.
    pub states_start: usize,
    pub cache_key: ViewElementCacheKey,
}

#[derive(Debug)]
pub enum PrepaintStep {
    /// The view was rendered for its layout; what was rendered is to be prepainted, and
    /// `Window::leave_view` ends the view.
    Prepaint,
    /// What the view drew in the shown frame was repeated. There is nothing left to do.
    Reused,
    /// The view is to be rendered, laid out to fill its bounds, and prepainted at their origin.
    /// `finish_prepaint_view` ends it.
    Render(Rendering),
}

/// A state in which a view can be reused: the frame that is shown has what it drew.
pub open spec fn drew_before(window: Window, id: GlobalElementId) -> bool {
    position(window.next.states@, id) is None
}

/// Begins to prepaint a view at the given bounds. `rendered` says whether it was rendered for its
/// layout.
pub fn prepaint_view(
    entity: EntityId,
    id: GlobalElementId,
    bounds: Bounds<Pixels>,
    rendered: bool,
    window: &mut Window,
    cx: &mut App,
    stats: &mut ViewCacheStats,
) -> (r: PrepaintStep)
    requires
        old(window).wf(),
        !rendered ==> drew_before(*old(window), id),
    ensures
        final(window).wf(),
        r is Prepaint == rendered,
        r is Reused == (!rendered && cache_outcome(
            old(window).spec_state(id),
            entity,
            bounds,
            *old(window),
            *old(cx),
        ) is Hit),
        r is Prepaint ==> {
            &&& final(window).rendered_views@ == old(window).rendered_views@.push(entity)
            &&& *final(window) == (Window {
                view_id: Some(entity),
                rendered_views: final(window).rendered_views,
                ..*old(window)
            })
            &&& *final(cx) == *old(cx)
            &&& *final(stats) == *old(stats)
        },
        r is Reused ==> reused_prepaint(
            *old(window),
            *old(cx),
            entity,
            id,
            *final(window),
            *final(cx),
        ),
        r matches PrepaintStep::Render(rendering) ==> {
            &&& began_rendering(
                *old(window),
                *old(cx),
                entity,
                id,
                bounds,
                rendering,
                *final(window),
                *final(cx),
            )
        },
        !rendered ==> final(stats).counts@ == counted(
            old(stats).counts@,
            cache_outcome(old(window).spec_state(id), entity, bounds, *old(window), *old(cx)),
        ),
{
    window.view_id = Some(entity);
    window.enter_view(entity);
    if rendered {
        return PrepaintStep::Prepaint;
    }
    let state = window.take_state(id);
    let outcome = decide(&state, entity, bounds, window, cx);
    stats.record_outcome(outcome);

    if let CacheOutcome::Hit = outcome {
        if let Some(state) = state {
            let mut state = state;
            let prepaint_start = window.prepaint_index();
            window.reuse_prepaint(state.prepaint_range, &state.nested);
            cx.extend_accessed(&state.accessed_entities);
            cx.extend_accessed_globals(&state.deps.global_types);
            // Enclosing views must stay tied to the inputs that this one is tied to.
            window.input_reads = window.input_reads | state.deps.inputs();
            let prepaint_end = window.prepaint_index();
            state.prepaint_range = Span { start: prepaint_start, end: prepaint_end };
            window.put_state(id, state);
            window.leave_view();
            assert(window.rendered_views@ =~= old(window).rendered_views@);
            return PrepaintStep::Reused;
        }
    }
    let rendering = Rendering {
        outer_accessed: cx.begin_detection(),
        outer_input_reads: window.input_reads,
        prepaint_start: window.prepaint_index(),
        states_start: window.next.states.len(),
        cache_key: ViewElementCacheKey {
            bounds,
            content_mask: window.content_mask,
            text_style: window.text_style,
        },
    };
    window.input_reads = 0;
    PrepaintStep::Render(rendering)
}

/// Begins to prepaint what a component rendered. `Window::leave_id` ends it.
pub fn prepaint_component(name: TypeId, window: &mut Window)
    ensures
        began_component(*old(window), name, *final(window)),
{
    window.enter_id(ElementId::Name(name));
}

/// The states of the shown frame without that of a view.
pub open spec fn other_states(window: Window, id: GlobalElementId) -> Seq<StateEntry> {
    match position(window.rendered.states@, id) {
        Some(i) => window.rendered.states@.remove(i),
        None => window.rendered.states@,
    }
}

/// What the reuse of a view does. Everything that it drew, and the states of the views in it, are
/// as they were, only elsewhere in the frame; and what it depends on counts as read.
pub open spec fn reused_prepaint(
    before: Window,
    cx_before: App,
    entity: EntityId,
    id: GlobalElementId,
    after: Window,
    cx_after: App,
) -> bool {
    let state = before.spec_state(id)->0;
    let span = state.prepaint_range;
    let to = before.next.prepaint@.len() as usize;
    &&& after.next.prepaint@ == before.next.prepaint@ + before.rendered.prepaint@.subrange(
        span.start as int,
        span.end as int,
    )
    &&& after.rendered.states@ == outside(
        other_states(before, id),
        state.nested@,
        span,
    )
    &&& after.next.states@ == (before.next.states@ + carried(
        other_states(before, id),
        state.nested@,
        span,
        to,
    )).push(
        StateEntry {
            id,
            state: ViewElementState {
                prepaint_range: Span { start: to, end: after.next.prepaint@.len() as usize },
                ..state
            },
        },
    )
    &&& after.next.paint == before.next.paint
    &&& after.rendered.prepaint == before.rendered.prepaint
    &&& after.rendered.paint == before.rendered.paint
    &&& after.rendered_views@ == before.rendered_views@
    &&& after == Window {
        view_id: Some(entity),
        input_reads: before.input_reads | state.deps.spec_inputs(),
        rendered_views: after.rendered_views,
        rendered: after.rendered,
        next: after.next,
        ..before
    }
    &&& cx_after.accessed.entities@ == joined(
        cx_before.accessed.entities@,
        state.accessed_entities@,
    )
    &&& cx_after.accessed.globals@ == joined(
        cx_before.accessed.globals@,
        state.deps.global_types@,
    )
    &&& cx_after.notify_versions == cx_before.notify_versions
    &&& cx_after.global_versions == cx_before.global_versions
}

/// What is set up for a view to be rendered: its reads are watched by themselves.
pub open spec fn began_rendering(
    before: Window,
    cx_before: App,
    entity: EntityId,
    id: GlobalElementId,
    bounds: Bounds<Pixels>,
    rendering: Rendering,
    after: Window,
    cx_after: App,
) -> bool {
    &&& rendering.outer_accessed == cx_before.accessed
    &&& rendering.outer_input_reads == before.input_reads
    &&& rendering.prepaint_start == before.next.prepaint@.len()
    &&& rendering.states_start == before.next.states@.len()
    &&& rendering.cache_key == ViewElementCacheKey {
        bounds,
        content_mask: before.content_mask,
        text_style: before.text_style,
    }
    &&& after.rendered.states@ == other_states(before, id)
    &&& after.rendered.prepaint == before.rendered.prepaint
    &&& after.rendered.paint == before.rendered.paint
    &&& after.next.prepaint == before.next.prepaint
    &&& after.next.paint == before.next.paint
    &&& after.next.states@ == before.next.states@
    &&& after.rendered_views@ == before.rendered_views@.push(entity)
    &&& after == Window {
        view_id: Some(entity),
        input_reads: 0,
        rendered_views: after.rendered_views,
        rendered: after.rendered,
        next: after.next,
        ..before
    }
    &&& cx_after.accessed.entities@ == Seq::<u64>::empty()
    &&& cx_after.accessed.globals@ == Seq::<u64>::empty()
    &&& cx_after.notify_versions == cx_before.notify_versions
    &&& cx_after.global_versions == cx_before.global_versions
}

/// The numbers of the places of states, from an index on.
pub open spec fn ids_from(states: Seq<StateEntry>, start: int) -> Seq<u64> {
    states.skip(start).map_values(|entry: StateEntry| entry.id.0)
}

fn collect_ids(states: &Vec<StateEntry>, start: usize) -> (r: Vec<u64>)
    requires
        start <= states@.len(),
    ensures
        r@ == ids_from(states@, start as int),
{
    let mut ids: Vec<u64> = Vec::new();
    let mut i: usize = start;
    while i < states.len()
        invariant
            start <= i <= states@.len(),
            ids@ == ids_from(states@.take(i as int), start as int),
        decreases states@.len() - i,
    {
        ids.push(states[i].id.0);
        i = i + 1;
        assert(ids@ =~= ids_from(states@.take(i as int), start as int));
    }
    assert(states@.take(i as int) =~= states@);
    ids
}

/// The state of a view that was just rendered and prepainted.
pub open spec fn rendered_state(
    state: ViewElementState,
    rendering: Rendering,
    window: Window,
    cx: App,
) -> bool {
    &&& state.prepaint_range == Span {
        start: rendering.prepaint_start,
        end: window.next.prepaint@.len() as usize,
    }
    &&& state.paint_range is Unpainted
    &&& state.cache_key == rendering.cache_key
    &&& state.accessed_entities@ == cx.accessed.entities@
    &&& state.nested@ == ids_from(window.next.states@, rendering.states_start as int)
    &&& state.deps.entities@ == entity_versions(cx, cx.accessed.entities@)
    &&& state.deps.globals@ == global_versions(cx, cx.accessed.globals@)
    &&& state.deps.global_types@ == cx.accessed.globals@
    &&& state.deps.mouse == seen_mouse(None, window, window.input_reads)
    &&& state.deps.modifiers == seen_modifiers(None, window, window.input_reads)
}

/// What a view that was drawn leaves behind: its state is kept under its id, and what it read counts as
/// read by the views around it too.
pub open spec fn finished_view(
    before: Window,
    cx_before: App,
    id: GlobalElementId,
    outer_accessed: Accessed,
    outer_input_reads: u8,
    after: Window,
    cx_after: App,
) -> bool {
    let entry = after.next.states@.last();
    &&& after.next.states@ == before.next.states@.push(entry)
    &&& entry.id == id
    &&& after.next.prepaint == before.next.prepaint
    &&& after.next.paint == before.next.paint
    &&& after.rendered_views@ == without_last(before.rendered_views@)
    &&& after == Window {
        input_reads: outer_input_reads | before.input_reads,
        rendered_views: after.rendered_views,
        next: after.next,
        ..before
    }
    &&& cx_after.accessed.entities@ == joined(outer_accessed.entities@, cx_before.accessed.entities@)
    &&& cx_after.accessed.globals@ == joined(outer_accessed.globals@, cx_before.accessed.globals@)
    &&& cx_after.notify_versions == cx_before.notify_versions
    &&& cx_after.global_versions == cx_before.global_versions
}

/// Ends the prepaint of a view that was rendered. What it read becomes what it depends on, and
/// counts as read by the views around it.
pub fn finish_prepaint_view(
    id: GlobalElementId,
    rendering: Rendering,
    window: &mut Window,
    cx: &mut App,
)
    requires
        old(window).wf(),
        rendering.prepaint_start <= old(window).next.prepaint@.len(),
        rendering.states_start <= old(window).next.states@.len(),
    ensures
        final(window).wf(),
        finished_view(
            *old(window),
            *old(cx),
            id,
            rendering.outer_accessed,
            rendering.outer_input_reads,
            *final(window),
            *final(cx),
        ),
        ({
            let entry = final(window).next.states@.last();
            &&& final(window).next.states@ == old(window).next.states@.push(entry)
            &&& entry.id == id
            &&& rendered_state(entry.state, rendering, *old(window), *old(cx))
        }),
        final(window).next.prepaint == old(window).next.prepaint,
        final(window).next.paint == old(window).next.paint,
        final(window).rendered_views@ == if old(window).rendered_views@.len() == 0 {
            old(window).rendered_views@
        } else {
            old(window).rendered_views@.drop_last()
        },
        *final(window) == (Window {
            input_reads: rendering.outer_input_reads | old(window).input_reads,
            rendered_views: final(window).rendered_views,
            next: final(window).next,
            ..*old(window)
        }),
        final(cx).accessed.entities@ == joined(
            rendering.outer_accessed.entities@,
            old(cx).accessed.entities@,
        ),
        final(cx).accessed.globals@ == joined(
            rendering.outer_accessed.globals@,
            old(cx).accessed.globals@,
        ),
        final(cx).notify_versions == old(cx).notify_versions,
        final(cx).global_versions == old(cx).global_versions,
{
    let accessed = cx.end_detection(rendering.outer_accessed);
    let prepaint_end = window.prepaint_index();
    let inputs = window.input_reads;
    window.input_reads = rendering.outer_input_reads | inputs;
    let nested = collect_ids(&window.next.states, rendering.states_start);
    let deps = ViewDeps::capture(cx, window, &accessed.entities, accessed.globals, inputs);
    let state = ViewElementState {
        prepaint_range: Span { start: rendering.prepaint_start, end: prepaint_end },
        paint_range: PaintRange::Unpainted,
        cache_key: rendering.cache_key,
        accessed_entities: accessed.entities,
        nested,
        deps,
    };
    proof {
        assert(state.deps.entities@ =~= entity_versions(*old(cx), accessed.entities@));
        assert(state.deps.globals@ =~= global_versions(*old(cx), accessed.globals@));
    }
    window.put_state(id, state);
    window.leave_view();
}

// ---- paint -------------------------------------------------------------------------------------

/// What a paint needs once the view is painted.
#[derive(Debug)]
pub struct Painting {
    /// What was read before the view was begun.
    pub outer_accessed: Accessed,
    pub outer_input_reads: u8,
    pub paint_start: usize,
    pub state: ViewElementState,
}

#[derive(Debug)]
pub enum PaintStep {
    /// The view is not cached; what was rendered is to be painted, and `Window::leave_view` ends
    /// the view.
    Paint,
    /// What the view painted in the shown frame was repeated. There is nothing left to do.
    Reused,
    /// What was rendered is to be painted, and `finish_paint_view` ends the view.
    PaintCached(Painting),
}

/// The stretch of the shown frame's painting that is repeated for a view: the one that it was last
/// painted in, though it be that of an earlier frame.
pub open spec fn repeated_paint(range: PaintRange) -> Span {
    match range {
        PaintRange::Rendered(span) => span,
        PaintRange::Outdated(span) => span,
        _ => Span { start: 0, end: 0 },
    }
}

/// A view can be painted: it was not yet in this frame, and where it is not painted anew, the shown
/// frame has the stretch that is repeated.
pub open spec fn can_paint(window: Window, state: ViewElementState, rendered: bool) -> bool {
    &&& !(state.paint_range is Next)
    &&& !rendered ==> repeated_paint(state.paint_range).fits(window.rendered.paint@.len())
}

/// Begins to paint a view. `rendered` says whether it was rendered in this frame.
pub fn paint_view(
    entity: EntityId,
    cached: bool,
    id: GlobalElementId,
    rendered: bool,
    window: &mut Window,
    cx: &mut App,
) -> (r: PaintStep)
    requires
        old(window).wf(),
        cached && !old(window).inspector_picking ==> position(old(window).next.states@, id) is Some
            && can_paint(*old(window), old(window).spec_state(id)->0, rendered),
        !(cached && !old(window).inspector_picking) ==> rendered,
    ensures
        final(window).wf(),
        r is Paint == !(cached && !old(window).inspector_picking),
        r is Reused == (cached && !old(window).inspector_picking && !rendered),
        r is Paint ==> {
            &&& final(window).rendered_views@ == old(window).rendered_views@.push(entity)
            &&& *final(window) == (Window {
                rendered_views: final(window).rendered_views,
                ..*old(window)
            })
            &&& *final(cx) == *old(cx)
        },
        r is Reused ==> reused_paint(*old(window), id, *final(window)) && *final(cx) == *old(cx),
        r matches PaintStep::PaintCached(painting) ==> began_painting(
            *old(window),
            *old(cx),
            entity,
            id,
            painting,
            *final(window),
            *final(cx),
        ),
{
    window.enter_view(entity);
    let caching_disabled = window.inspector_picking;
    if !cached || caching_disabled {
        return PaintStep::Paint;
    }
    let state = window.take_state(id).unwrap();
    let paint_start = window.paint_index();
    if rendered {
        let painting = Painting {
            outer_accessed: cx.begin_detection(),
            outer_input_reads: window.input_reads,
            paint_start,
            state,
        };
        window.input_reads = 0;
        return PaintStep::PaintCached(painting);
    }
    let mut state = state;
    let span = match state.paint_range {
        PaintRange::Rendered(span) => span,
        PaintRange::Outdated(span) => span,
        _ => Span { start: 0, end: 0 },
    };
    window.reuse_paint(span, &state.nested);
    let paint_end = window.paint_index();
    state.paint_range = PaintRange::Next(Span { start: paint_start, end: paint_end });
    window.put_state(id, state);
    window.leave_view();
    assert(window.rendered_views@ =~= old(window).rendered_views@);
    PaintStep::Reused
}

/// Begins to paint what a component rendered. `Window::leave_id` ends it.
pub fn paint_component(name: TypeId, window: &mut Window)
    ensures
        began_component(*old(window), name, *final(window)),
{
    window.enter_id(ElementId::Name(name));
}

/// The states of the frame that is being drawn without that of a view.
pub open spec fn other_next_states(window: Window, id: GlobalElementId) -> Seq<StateEntry> {
    match position(window.next.states@, id) {
        Some(i) => window.next.states@.remove(i),
        None => window.next.states@,
    }
}

/// What the reuse of a view's painting does.
pub open spec fn reused_paint(before: Window, id: GlobalElementId, after: Window) -> bool {
    let state = before.spec_state(id)->0;
    let span = repeated_paint(state.paint_range);
    let to = before.next.paint@.len() as usize;
    &&& after.next.paint@ == before.next.paint@ + before.rendered.paint@.subrange(
        span.start as int,
        span.end as int,
    )
    &&& after.next.states@ == other_next_states(before, id).map_values(
        |entry: StateEntry| entry.painted_at(state.nested@, span, to),
    ).push(
        StateEntry {
            id,
            state: ViewElementState {
                paint_range: PaintRange::Next(
                    Span { start: to, end: after.next.paint@.len() as usize },
                ),
                ..state
            },
        },
    )
    &&& after.next.prepaint == before.next.prepaint
    &&& after.rendered_views@ == before.rendered_views@
    &&& after.rendered.states@ == before.rendered.states@
    &&& after.rendered.prepaint == before.rendered.prepaint
    &&& after.rendered.paint == before.rendered.paint
    &&& after == Window {
        rendered_views: after.rendered_views,
        rendered: after.rendered,
        next: after.next,
        ..before
    }
}

/// What is set up for a view to be painted: its reads are watched by themselves.
pub open spec fn began_painting(
    before: Window,
    cx_before: App,
    entity: EntityId,
    id: GlobalElementId,
    painting: Painting,
    after: Window,
    cx_after: App,
) -> bool {
    &&& painting.outer_accessed == cx_before.accessed
    &&& painting.outer_input_reads == before.input_reads
    &&& painting.paint_start == before.next.paint@.len()
    &&& painting.state == before.spec_state(id)->0
    &&& after.next.states@ == other_next_states(before, id)
    &&& after.next.prepaint == before.next.prepaint
    &&& after.next.paint == before.next.paint
    &&& after.rendered.states@ == before.rendered.states@
    &&& after.rendered.prepaint == before.rendered.prepaint
    &&& after.rendered.paint == before.rendered.paint
    &&& after.rendered_views@ == before.rendered_views@.push(entity)
    &&& after == Window {
        input_reads: 0,
        rendered_views: after.rendered_views,
        rendered: after.rendered,
        next: after.next,
        ..before
    }
    &&& cx_after.accessed.entities@ == Seq::<u64>::empty()
    &&& cx_after.accessed.globals@ == Seq::<u64>::empty()
    &&& cx_after.notify_versions == cx_before.notify_versions
    &&& cx_after.global_versions == cx_before.global_versions
}

/// The state of a view that was just painted.
pub open spec fn painted_state(
    state: ViewElementState,
    painting: Painting,
    window: Window,
    cx: App,
) -> bool {
    let before = painting.state;
    &&& state.prepaint_range == before.prepaint_range
    &&& state.paint_range == PaintRange::Next(
        Span { start: painting.paint_start, end: window.next.paint@.len() as usize },
    )
    &&& state.cache_key == before.cache_key
    &&& state.accessed_entities@ == before.accessed_entities@ + cx.accessed.entities@
    &&& state.nested == before.nested
    &&& state.deps.entities@ == before.deps.entities@ + entity_versions(cx, cx.accessed.entities@)
    &&& state.deps.globals@ == before.deps.globals@ + global_versions(cx, cx.accessed.globals@)
    &&& state.deps.global_types@ == before.deps.global_types@ + cx.accessed.globals@
    &&& state.deps.mouse == seen_mouse(before.deps.mouse, window, window.input_reads)
    &&& state.deps.modifiers == seen_modifiers(
        before.deps.modifiers,
        window,
        window.input_reads,
    )
}

/// Ends the painting of a cached view. What it read while painting adds to what it depends on.
pub fn finish_paint_view(
    id: GlobalElementId,
    painting: Painting,
    window: &mut Window,
    cx: &mut App,
)
    requires
        old(window).wf(),
        painting.paint_start <= old(window).next.paint@.len(),
        painting.state.prepaint_range.fits(old(window).next.prepaint@.len()),
    ensures
        final(window).wf(),
        finished_view(
            *old(window),
            *old(cx),
            id,
            painting.outer_accessed,
            painting.outer_input_reads,
            *final(window),
            *final(cx),
        ),
        ({
            let entry = final(window).next.states@.last();
            &&& final(window).next.states@ == old(window).next.states@.push(entry)
            &&& entry.id == id
            &&& painted_state(entry.state, painting, *old(window), *old(cx))
        }),
        final(window).next.prepaint == old(window).next.prepaint,
        final(window).next.paint == old(window).next.paint,
        final(window).rendered_views@ == if old(window).rendered_views@.len() == 0 {
            old(window).rendered_views@
        } else {
            old(window).rendered_views@.drop_last()
        },
        *final(window) == (Window {
            input_reads: painting.outer_input_reads | old(window).input_reads,
            rendered_views: final(window).rendered_views,
            next: final(window).next,
            ..*old(window)
        }),
        final(cx).accessed.entities@ == joined(
            painting.outer_accessed.entities@,
            old(cx).accessed.entities@,
        ),
        final(cx).accessed.globals@ == joined(
            painting.outer_accessed.globals@,
            old(cx).accessed.globals@,
        ),
        final(cx).notify_versions == old(cx).notify_versions,
        final(cx).global_versions == old(cx).global_versions,
{
    let accessed = cx.end_detection(painting.outer_accessed);
    let inputs = window.input_reads;
    window.input_reads = painting.outer_input_reads | inputs;
    let paint_end = window.paint_index();
    let mut state = painting.state;
    state.deps.capture_more(cx, window, &accessed, inputs);
    add_all(&mut state.accessed_entities, &accessed.entities);
    state.paint_range = PaintRange::Next(Span { start: painting.paint_start, end: paint_end });
    proof {
        assert(entity_versions(*cx, accessed.entities@) =~= entity_versions(
            *old(cx),
            accessed.entities@,
        ));
        assert(global_versions(*cx, accessed.globals@) =~= global_versions(
            *old(cx),
            accessed.globals@,
        ));
    }
    window.put_state(id, state);
    window.leave_view();
}

} // verus!
