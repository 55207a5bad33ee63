//! What holds of cached views: they behave like uncached ones, and skip work only while nothing
//! that they depend on has changed.

use crate::geometry::{is_number, same_number, Bounds, Pixels, Point};
use crate::view::cache::{
    began_component, began_painting, began_rendering, cache_outcome, finished_view, global_versions, other_next_states,
    other_states, painted_state, rendered_state, repeated_paint, reused_paint, reused_prepaint,
    Painting, Rendering, ViewElementState,
};
use crate::view::stats::{counted, CacheOutcome};
use crate::view::window::{
    carried, law_leaving_undoes_entering, lemma_joined_contains, outside, position, without_last, App, ElementId, EntityId, GlobalElementId, Modifiers,
    PaintRange, Span, StateEntry, TypeId, Window, INPUT_MODIFIERS, INPUT_MOUSE,
};
use vstd::prelude::*;

verus! {

// ---- when a view is reused ---------------------------------------------------------------------

/// A view is reused if and only if it was drawn before, at the same bounds, in the same mask and
/// text style, was not notified since, the window is not refreshed, and everything that it read is
/// as it was.
pub proof fn law_reused_iff_nothing_changed(
    state: Option<ViewElementState>,
    entity: EntityId,
    bounds: Bounds<Pixels>,
    window: Window,
    cx: App,
)
    ensures
        cache_outcome(state, entity, bounds, window, cx) is Hit <==> {
            &&& state is Some
            &&& state->0.cache_key.bounds.same(bounds)
            &&& state->0.cache_key.content_mask.bounds.same(window.content_mask.bounds)
            &&& state->0.cache_key.text_style == window.text_style
            &&& !window.dirty_views@.contains(entity.0)
            &&& !window.refreshing
            &&& !state->0.deps.spec_inputs_changed(window)
            &&& !state->0.deps.spec_entities_changed(cx)
            &&& !state->0.deps.spec_globals_changed(cx)
        },
{
}

/// How often something was changed, of which only changes are listed.
pub open spec fn version_of(versions: Map<u64, u64>, name: u64) -> u64 {
    if versions.contains_key(name) {
        versions[name]
    } else {
        0
    }
}

/// The equality that reuse is decided by is that of the numbers, coordinate by coordinate.
pub proof fn law_equal_bounds_have_equal_numbers(
    a: Bounds<Pixels>,
    b: Bounds<Pixels>,
    p: Point<Pixels>,
    q: Point<Pixels>,
)
    ensures
        a.same(b) <==> {
            &&& same_number(a.origin.x.0, b.origin.x.0)
            &&& same_number(a.origin.y.0, b.origin.y.0)
            &&& same_number(a.size.width.0, b.size.width.0)
            &&& same_number(a.size.height.0, b.size.height.0)
        },
        p.same(q) <==> same_number(p.x.0, q.x.0) && same_number(p.y.0, q.y.0),
        a.spec_is_proper() <==> {
            &&& is_number(a.origin.x.0)
            &&& is_number(a.origin.y.0)
            &&& is_number(a.size.width.0)
            &&& is_number(a.size.height.0)
        },
{
}

/// All four numbers of two rectangles are the same.
pub open spec fn same_numbers(a: Bounds<Pixels>, b: Bounds<Pixels>) -> bool {
    &&& same_number(a.origin.x.0, b.origin.x.0)
    &&& same_number(a.origin.y.0, b.origin.y.0)
    &&& same_number(a.size.width.0, b.size.width.0)
    &&& same_number(a.size.height.0, b.size.height.0)
}

/// The inputs that a view remembers are those of the window.
pub open spec fn sees_the_same(state: ViewElementState, window: Window) -> bool {
    &&& state.deps.mouse matches Some(mouse) ==> same_number(
        mouse.x.0,
        window.mouse_position.x.0,
    ) && same_number(mouse.y.0, window.mouse_position.y.0)
    &&& state.deps.modifiers matches Some(modifiers) ==> same_modifiers(
        modifiers,
        window.modifiers,
    )
}

/// The same keys are held.
pub open spec fn same_modifiers(a: Modifiers, b: Modifiers) -> bool {
    &&& a.control == b.control
    &&& a.alt == b.alt
    &&& a.shift == b.shift
    &&& a.platform == b.platform
    &&& a.function == b.function
}

/// The entities that a view read have the versions that they had.
pub open spec fn entities_unchanged(state: ViewElementState, cx: App) -> bool {
    forall|i: int|
        0 <= i < state.deps.entities@.len() ==> version_of(
            cx.notify_versions@,
            (#[trigger] state.deps.entities@[i]).0,
        ) == state.deps.entities@[i].1
}

/// The globals that a view read have the versions that they had.
pub open spec fn globals_unchanged(state: ViewElementState, cx: App) -> bool {
    forall|i: int|
        0 <= i < state.deps.globals@.len() ==> version_of(
            cx.global_versions@,
            (#[trigger] state.deps.globals@[i]).0,
        ) == state.deps.globals@[i].1
}

/// A view is reused if and only if all four numbers of its bounds are those that it was drawn at, all
/// four numbers of the mask are those that it was drawn in, the text style is, both mouse coordinates
/// and every modifier are those that it saw where it read them, every entity and global that it read
/// has the version that it had, and neither it nor the window is to be drawn anew.
pub proof fn law_reused_iff_every_number_is_the_same(
    state: Option<ViewElementState>,
    entity: EntityId,
    bounds: Bounds<Pixels>,
    window: Window,
    cx: App,
)
    ensures
        cache_outcome(state, entity, bounds, window, cx) is Hit <==> {
            &&& state is Some
            &&& same_numbers(state->0.cache_key.bounds, bounds)
            &&& same_numbers(state->0.cache_key.content_mask.bounds, window.content_mask.bounds)
            &&& state->0.cache_key.text_style.0 == window.text_style.0
            &&& !window.dirty_views@.contains(entity.0)
            &&& !window.refreshing
            &&& sees_the_same(state->0, window)
            &&& entities_unchanged(state->0, cx)
            &&& globals_unchanged(state->0, cx)
        },
{
    lemma_outcome(state, entity, bounds, window, cx);
}

/// Each reason for which a view is drawn anew is named if and only if it holds and none of those that
/// come before it does: that there is nothing to reuse, the bounds, the mask, the text style, a
/// notification, a refresh, an input, an entity, a global.
pub proof fn law_the_first_reason_is_named(
    state: Option<ViewElementState>,
    entity: EntityId,
    bounds: Bounds<Pixels>,
    window: Window,
    cx: App,
)
    ensures
        ({
            let outcome = cache_outcome(state, entity, bounds, window, cx);
            let same_bounds = state is Some && same_numbers(state->0.cache_key.bounds, bounds);
            let same_mask = same_bounds && same_numbers(
                state->0.cache_key.content_mask.bounds,
                window.content_mask.bounds,
            );
            let same_style = same_mask && state->0.cache_key.text_style.0 == window.text_style.0;
            let clean = same_style && !window.dirty_views@.contains(entity.0);
            let calm = clean && !window.refreshing;
            let same_inputs = calm && sees_the_same(state->0, window);
            let same_entities = same_inputs && entities_unchanged(state->0, cx);
            &&& outcome is First <==> state is None
            &&& outcome is Bounds <==> state is Some && !same_bounds
            &&& outcome is Mask <==> same_bounds && !same_mask
            &&& outcome is TextStyle <==> same_mask && !same_style
            &&& outcome is Dirty <==> same_style && !clean
            &&& outcome is Refreshing <==> clean && !calm
            &&& outcome is Input <==> calm && !same_inputs
            &&& outcome is EntityDep <==> same_inputs && !same_entities
            &&& outcome is GlobalDep <==> same_entities && !globals_unchanged(state->0, cx)
        }),
{
    lemma_outcome(state, entity, bounds, window, cx);
}

/// The parts of the decision, on numbers.
proof fn lemma_outcome(
    state: Option<ViewElementState>,
    entity: EntityId,
    bounds: Bounds<Pixels>,
    window: Window,
    cx: App,
)
    ensures
        state matches Some(state) ==> {
            &&& state.cache_key.bounds.same(bounds) == same_numbers(state.cache_key.bounds, bounds)
            &&& state.cache_key.content_mask.bounds.same(window.content_mask.bounds)
                == same_numbers(state.cache_key.content_mask.bounds, window.content_mask.bounds)
            &&& state.deps.spec_inputs_changed(window) == !sees_the_same(state, window)
            &&& state.deps.spec_entities_changed(cx) == !entities_unchanged(state, cx)
            &&& state.deps.spec_globals_changed(cx) == !globals_unchanged(state, cx)
        },
{
    if let Some(state) = state {
        let mouse = window.mouse_position;
        law_equal_bounds_have_equal_numbers(state.cache_key.bounds, bounds, mouse, mouse);
        law_equal_bounds_have_equal_numbers(
            state.cache_key.content_mask.bounds,
            window.content_mask.bounds,
            mouse,
            mouse,
        );
        if let Some(seen) = state.deps.mouse {
            law_equal_bounds_have_equal_numbers(bounds, bounds, seen, mouse);
        }
        lemma_reads_the_same(state, cx);
    }
}

proof fn lemma_reads_the_same(state: ViewElementState, cx: App)
    ensures
        state.deps.spec_entities_changed(cx) == !entities_unchanged(state, cx),
        state.deps.spec_globals_changed(cx) == !globals_unchanged(state, cx),
{
    if !state.deps.spec_entities_changed(cx) {
        assert forall|i: int| 0 <= i < state.deps.entities@.len() implies version_of(
            cx.notify_versions@,
            (#[trigger] state.deps.entities@[i]).0,
        ) == state.deps.entities@[i].1 by {
            let e = EntityId(state.deps.entities@[i].0);
            assert(cx.spec_notify_version(e) == state.deps.entities@[i].1);
        }
    } else {
        let i = choose|i: int|
            0 <= i < state.deps.entities@.len() && cx.spec_notify_version(
                EntityId((#[trigger] state.deps.entities@[i]).0),
            ) != state.deps.entities@[i].1;
        assert(version_of(cx.notify_versions@, state.deps.entities@[i].0)
            != state.deps.entities@[i].1);
    }
    if !state.deps.spec_globals_changed(cx) {
        assert forall|i: int| 0 <= i < state.deps.globals@.len() implies version_of(
            cx.global_versions@,
            (#[trigger] state.deps.globals@[i]).0,
        ) == state.deps.globals@[i].1 by {
            let g = TypeId(state.deps.globals@[i].0);
            assert(cx.spec_global_version(g) == state.deps.globals@[i].1);
        }
    } else {
        let i = choose|i: int|
            0 <= i < state.deps.globals@.len() && cx.spec_global_version(
                TypeId((#[trigger] state.deps.globals@[i]).0),
            ) != state.deps.globals@[i].1;
        assert(version_of(cx.global_versions@, state.deps.globals@[i].0)
            != state.deps.globals@[i].1);
    }
}

/// A view is reused only where it was drawn: at the same four numbers of its bounds, within the same
/// four of the mask, in the same text style, with both mouse coordinates and every modifier as it saw
/// them if it read them, and with every entity and global that it read at the version that it read.
pub proof fn law_a_view_is_reused_as_it_was_drawn(
    before: Window,
    cx_before: App,
    entity: EntityId,
    id: GlobalElementId,
    bounds: Bounds<Pixels>,
    rendering: Rendering,
    begun: Window,
    cx_begun: App,
    drawn: Window,
    cx_drawn: App,
    state: ViewElementState,
    bounds_now: Bounds<Pixels>,
    now: Window,
    cx_now: App,
)
    requires
        began_rendering(before, cx_before, entity, id, bounds, rendering, begun, cx_begun),
        rendered_state(state, rendering, drawn, cx_drawn),
        cache_outcome(Some(state), entity, bounds_now, now, cx_now) is Hit,
    ensures
        same_number(bounds.origin.x.0, bounds_now.origin.x.0),
        same_number(bounds.origin.y.0, bounds_now.origin.y.0),
        same_number(bounds.size.width.0, bounds_now.size.width.0),
        same_number(bounds.size.height.0, bounds_now.size.height.0),
        same_numbers(before.content_mask.bounds, now.content_mask.bounds),
        before.text_style.0 == now.text_style.0,
        drawn.input_reads % 2 == 1 ==> same_number(
            drawn.mouse_position.x.0,
            now.mouse_position.x.0,
        ) && same_number(drawn.mouse_position.y.0, now.mouse_position.y.0),
        (drawn.input_reads / 2) % 2 == 1 ==> same_modifiers(drawn.modifiers, now.modifiers),
        forall|read: u64| #[trigger]
            cx_drawn.accessed.entities@.contains(read) ==> version_of(
                cx_now.notify_versions@,
                read,
            ) == version_of(cx_drawn.notify_versions@, read),
        forall|read: u64| #[trigger]
            cx_drawn.accessed.globals@.contains(read) ==> version_of(cx_now.global_versions@, read)
                == version_of(cx_drawn.global_versions@, read),
        !now.dirty_views@.contains(entity.0),
        !now.refreshing,
{
    lemma_outcome(Some(state), entity, bounds_now, now, cx_now);
    let reads = drawn.input_reads;
    assert(reads & 1u8 != 0 <==> reads % 2 == 1) by (bit_vector);
    assert(reads & 2u8 != 0 <==> (reads / 2) % 2 == 1) by (bit_vector);
    assert forall|read: u64| #[trigger] cx_drawn.accessed.entities@.contains(read) implies version_of(
        cx_now.notify_versions@,
        read,
    ) == version_of(cx_drawn.notify_versions@, read) by {
        let i = choose|i: int|
            0 <= i < cx_drawn.accessed.entities@.len() && cx_drawn.accessed.entities@[i] == read;
        assert(state.deps.entities@[i] == (read, cx_drawn.spec_notify_version(EntityId(read))));
    }
    assert forall|read: u64| #[trigger] cx_drawn.accessed.globals@.contains(read) implies version_of(
        cx_now.global_versions@,
        read,
    ) == version_of(cx_drawn.global_versions@, read) by {
        let i = choose|i: int|
            0 <= i < cx_drawn.accessed.globals@.len() && cx_drawn.accessed.globals@[i] == read;
        assert(state.deps.globals@[i] == (read, cx_drawn.spec_global_version(TypeId(read))));
    }
}

/// A view that was painted is reused only while that holds of what it read while painting too. What
/// it remembers from before it was painted still binds it, where painting did not read it again.
pub proof fn law_a_view_is_reused_as_it_was_painted(
    before: Window,
    cx_before: App,
    entity: EntityId,
    id: GlobalElementId,
    painting: Painting,
    begun: Window,
    cx_begun: App,
    drawn: Window,
    cx_drawn: App,
    state: ViewElementState,
    bounds_now: Bounds<Pixels>,
    now: Window,
    cx_now: App,
)
    requires
        before.spec_state(id) is Some,
        began_painting(before, cx_before, entity, id, painting, begun, cx_begun),
        painted_state(state, painting, drawn, cx_drawn),
        cache_outcome(Some(state), entity, bounds_now, now, cx_now) is Hit,
    ensures
        same_numbers(before.spec_state(id)->0.cache_key.bounds, bounds_now),
        same_numbers(
            before.spec_state(id)->0.cache_key.content_mask.bounds,
            now.content_mask.bounds,
        ),
        before.spec_state(id)->0.cache_key.text_style.0 == now.text_style.0,
        drawn.input_reads % 2 == 1 ==> same_number(
            drawn.mouse_position.x.0,
            now.mouse_position.x.0,
        ) && same_number(drawn.mouse_position.y.0, now.mouse_position.y.0),
        drawn.input_reads % 2 == 0 ==> (before.spec_state(id)->0.deps.mouse matches Some(mouse)
            ==> same_number(mouse.x.0, now.mouse_position.x.0) && same_number(
            mouse.y.0,
            now.mouse_position.y.0,
        )),
        (drawn.input_reads / 2) % 2 == 1 ==> same_modifiers(drawn.modifiers, now.modifiers),
        (drawn.input_reads / 2) % 2 == 0 ==> (before.spec_state(id)->0.deps.modifiers matches Some(
            modifiers,
        ) ==> same_modifiers(modifiers, now.modifiers)),
        entities_unchanged(before.spec_state(id)->0, cx_now),
        globals_unchanged(before.spec_state(id)->0, cx_now),
        forall|read: u64| #[trigger]
            cx_drawn.accessed.entities@.contains(read) ==> version_of(
                cx_now.notify_versions@,
                read,
            ) == version_of(cx_drawn.notify_versions@, read),
        forall|read: u64| #[trigger]
            cx_drawn.accessed.globals@.contains(read) ==> version_of(cx_now.global_versions@, read)
                == version_of(cx_drawn.global_versions@, read),
{
    lemma_outcome(Some(state), entity, bounds_now, now, cx_now);
    let reads = drawn.input_reads;
    assert(reads & 1u8 != 0 <==> reads % 2 == 1) by (bit_vector);
    assert(reads & 2u8 != 0 <==> (reads / 2) % 2 == 1) by (bit_vector);
    let earlier = painting.state;
    assert forall|i: int| 0 <= i < earlier.deps.entities@.len() implies version_of(
        cx_now.notify_versions@,
        (#[trigger] earlier.deps.entities@[i]).0,
    ) == earlier.deps.entities@[i].1 by {
        assert(state.deps.entities@[i] == earlier.deps.entities@[i]);
    }
    assert forall|i: int| 0 <= i < earlier.deps.globals@.len() implies version_of(
        cx_now.global_versions@,
        (#[trigger] earlier.deps.globals@[i]).0,
    ) == earlier.deps.globals@[i].1 by {
        assert(state.deps.globals@[i] == earlier.deps.globals@[i]);
    }
    assert forall|read: u64| #[trigger] cx_drawn.accessed.entities@.contains(read) implies version_of(
        cx_now.notify_versions@,
        read,
    ) == version_of(cx_drawn.notify_versions@, read) by {
        let i = choose|i: int|
            0 <= i < cx_drawn.accessed.entities@.len() && cx_drawn.accessed.entities@[i] == read;
        let j = earlier.deps.entities@.len() + i;
        assert(state.deps.entities@[j] == (read, cx_drawn.spec_notify_version(EntityId(read))));
    }
    assert forall|read: u64| #[trigger] cx_drawn.accessed.globals@.contains(read) implies version_of(
        cx_now.global_versions@,
        read,
    ) == version_of(cx_drawn.global_versions@, read) by {
        let i = choose|i: int|
            0 <= i < cx_drawn.accessed.globals@.len() && cx_drawn.accessed.globals@[i] == read;
        let j = earlier.deps.globals@.len() + i;
        assert(state.deps.globals@[j] == (read, cx_drawn.spec_global_version(TypeId(read))));
    }
}

/// The dependencies of a view are on what it is recorded to have read.
pub open spec fn tracks_its_reads(state: ViewElementState) -> bool {
    &&& forall|i: int|
        0 <= i < state.deps.entities@.len() ==> state.accessed_entities@.contains(
            (#[trigger] state.deps.entities@[i]).0,
        )
    &&& forall|i: int|
        0 <= i < state.deps.globals@.len() ==> state.deps.global_types@.contains(
            (#[trigger] state.deps.globals@[i]).0,
        )
}

/// A view that was rendered is reused as long as everything is as it was then.
///
/// Coordinates that are not numbers are left out: they differ even from themselves.
pub proof fn law_unchanged_view_is_reused(
    state: ViewElementState,
    rendering: Rendering,
    then: Window,
    cx_then: App,
    entity: EntityId,
    now: Window,
    cx_now: App,
)
    requires
        rendered_state(state, rendering, then, cx_then),
        rendering.cache_key.bounds.spec_is_proper(),
        rendering.cache_key.content_mask.bounds.spec_is_proper(),
        then.mouse_position.same(then.mouse_position),
        now.content_mask == rendering.cache_key.content_mask,
        now.text_style == rendering.cache_key.text_style,
        now.mouse_position == then.mouse_position,
        now.modifiers == then.modifiers,
        !now.dirty_views@.contains(entity.0),
        !now.refreshing,
        forall|e: EntityId| #[trigger]
            cx_now.spec_notify_version(e) == cx_then.spec_notify_version(e),
        forall|g: TypeId| #[trigger]
            cx_now.spec_global_version(g) == cx_then.spec_global_version(g),
    ensures
        cache_outcome(Some(state), entity, rendering.cache_key.bounds, now, cx_now)
            == CacheOutcome::Hit,
{
    assert forall|i: int| 0 <= i < state.deps.entities@.len() implies cx_now.spec_notify_version(
        EntityId((#[trigger] state.deps.entities@[i]).0),
    ) == state.deps.entities@[i].1 by {
        let e = EntityId(cx_then.accessed.entities@[i]);
        assert(cx_now.spec_notify_version(e) == cx_then.spec_notify_version(e));
    }
    assert forall|i: int| 0 <= i < state.deps.globals@.len() implies cx_now.spec_global_version(
        TypeId((#[trigger] state.deps.globals@[i]).0),
    ) == state.deps.globals@[i].1 by {
        let g = TypeId(cx_then.accessed.globals@[i]);
        assert(cx_now.spec_global_version(g) == cx_then.spec_global_version(g));
    }
}

/// A view that read an entity while it was rendered or prepainted is drawn anew once that entity is
/// notified, though the view never observed it.
pub proof fn law_changed_entity_draws_readers_anew(
    state: ViewElementState,
    rendering: Rendering,
    then: Window,
    cx_then: App,
    read: EntityId,
    entity: EntityId,
    bounds: Bounds<Pixels>,
    now: Window,
    cx_now: App,
)
    requires
        rendered_state(state, rendering, then, cx_then),
        cx_then.accessed.entities@.contains(read.0),
        cx_now.spec_notify_version(read) != cx_then.spec_notify_version(read),
    ensures
        !(cache_outcome(Some(state), entity, bounds, now, cx_now) is Hit),
{
    let i = choose|i: int|
        0 <= i < cx_then.accessed.entities@.len() && cx_then.accessed.entities@[i] == read.0;
    assert(state.deps.entities@[i] == (read.0, cx_then.spec_notify_version(read)));
}

/// The same of a global that changed.
pub proof fn law_changed_global_draws_readers_anew(
    state: ViewElementState,
    rendering: Rendering,
    then: Window,
    cx_then: App,
    read: TypeId,
    entity: EntityId,
    bounds: Bounds<Pixels>,
    now: Window,
    cx_now: App,
)
    requires
        rendered_state(state, rendering, then, cx_then),
        cx_then.accessed.globals@.contains(read.0),
        cx_now.spec_global_version(read) != cx_then.spec_global_version(read),
    ensures
        !(cache_outcome(Some(state), entity, bounds, now, cx_now) is Hit),
{
    let i = choose|i: int|
        0 <= i < cx_then.accessed.globals@.len() && cx_then.accessed.globals@[i] == read.0;
    assert(state.deps.globals@[i] == (read.0, cx_then.spec_global_version(read)));
}

/// Nothing notifies a view when the mouse moves or a modifier is pressed. One that read them is
/// drawn anew once they are not what it saw.
pub proof fn law_changed_input_draws_readers_anew(
    state: ViewElementState,
    rendering: Rendering,
    then: Window,
    cx_then: App,
    entity: EntityId,
    bounds: Bounds<Pixels>,
    now: Window,
    cx_now: App,
)
    requires
        rendered_state(state, rendering, then, cx_then),
        (then.input_reads & INPUT_MOUSE != 0 && !then.mouse_position.same(now.mouse_position)) || (
        then.input_reads & INPUT_MODIFIERS != 0 && then.modifiers != now.modifiers),
    ensures
        !(cache_outcome(Some(state), entity, bounds, now, cx_now) is Hit),
{
}

/// Reads that are made only while painting, of entities, globals and inputs, are dependencies too,
/// and those from before stay.
pub proof fn law_reads_while_painting_count(
    state: ViewElementState,
    painting: Painting,
    then: Window,
    cx_then: App,
    read: EntityId,
    global: TypeId,
    entity: EntityId,
    bounds: Bounds<Pixels>,
    now: Window,
    cx_now: App,
)
    requires
        painted_state(state, painting, then, cx_then),
        ({
            ||| cx_then.accessed.entities@.contains(read.0) && cx_now.spec_notify_version(read)
                != cx_then.spec_notify_version(read)
            ||| cx_then.accessed.globals@.contains(global.0) && cx_now.spec_global_version(global)
                != cx_then.spec_global_version(global)
            ||| then.input_reads & INPUT_MOUSE != 0 && !then.mouse_position.same(
                now.mouse_position,
            )
            ||| then.input_reads & INPUT_MODIFIERS != 0 && then.modifiers != now.modifiers
            ||| painting.state.deps.spec_entities_changed(cx_now)
            ||| painting.state.deps.spec_globals_changed(cx_now)
            ||| then.input_reads & INPUT_MOUSE == 0 && (painting.state.deps.mouse matches Some(
                mouse,
            ) && !mouse.same(now.mouse_position))
            ||| then.input_reads & INPUT_MODIFIERS == 0 && (
            painting.state.deps.modifiers matches Some(modifiers) && modifiers != now.modifiers)
        }),
    ensures
        !(cache_outcome(Some(state), entity, bounds, now, cx_now) is Hit),
{
    let before = painting.state.deps;
    if cx_then.accessed.entities@.contains(read.0) && cx_now.spec_notify_version(read)
        != cx_then.spec_notify_version(read) {
        let i = choose|i: int|
            0 <= i < cx_then.accessed.entities@.len() && cx_then.accessed.entities@[i] == read.0;
        let j = before.entities@.len() + i;
        assert(state.deps.entities@[j] == (read.0, cx_then.spec_notify_version(read)));
    } else if cx_then.accessed.globals@.contains(global.0) && cx_now.spec_global_version(global)
        != cx_then.spec_global_version(global) {
        let i = choose|i: int|
            0 <= i < cx_then.accessed.globals@.len() && cx_then.accessed.globals@[i] == global.0;
        let j = before.globals@.len() + i;
        assert(state.deps.globals@[j] == (global.0, cx_then.spec_global_version(global)));
    } else if before.spec_entities_changed(cx_now) {
        let i = choose|i: int|
            0 <= i < before.entities@.len() && cx_now.spec_notify_version(
                EntityId((#[trigger] before.entities@[i]).0),
            ) != before.entities@[i].1;
        assert(state.deps.entities@[i] == before.entities@[i]);
    } else if before.spec_globals_changed(cx_now) {
        let i = choose|i: int|
            0 <= i < before.globals@.len() && cx_now.spec_global_version(
                TypeId((#[trigger] before.globals@[i]).0),
            ) != before.globals@[i].1;
        assert(state.deps.globals@[i] == before.globals@[i]);
    }
}

/// Rendering a view and painting it keep account of what it read.
pub proof fn law_views_track_their_reads(
    state: ViewElementState,
    rendering: Rendering,
    painted: ViewElementState,
    painting: Painting,
    window: Window,
    cx: App,
    window_painted: Window,
    cx_painted: App,
)
    requires
        rendered_state(state, rendering, window, cx),
        painting.state == state,
        painted_state(painted, painting, window_painted, cx_painted),
    ensures
        tracks_its_reads(state),
        tracks_its_reads(painted),
{
    assert forall|i: int| 0 <= i < state.deps.entities@.len() implies
        state.accessed_entities@.contains((#[trigger] state.deps.entities@[i]).0) by {
        assert(cx.accessed.entities@[i] == state.deps.entities@[i].0);
    }
    assert forall|i: int| 0 <= i < state.deps.globals@.len() implies
        state.deps.global_types@.contains((#[trigger] state.deps.globals@[i]).0) by {
        assert(cx.accessed.globals@[i] == state.deps.globals@[i].0);
    }
    let n = state.deps.entities@.len() as int;
    assert forall|i: int| 0 <= i < painted.deps.entities@.len() implies
        painted.accessed_entities@.contains((#[trigger] painted.deps.entities@[i]).0) by {
        assert(n == state.accessed_entities@.len());
        if i < n {
            assert(painted.deps.entities@[i] == state.deps.entities@[i]);
            assert(painted.accessed_entities@[i] == state.accessed_entities@[i]);
        } else {
            assert(painted.accessed_entities@[i] == cx_painted.accessed.entities@[i - n]);
        }
    }
    let m = state.deps.globals@.len() as int;
    assert forall|i: int| 0 <= i < painted.deps.globals@.len() implies
        painted.deps.global_types@.contains((#[trigger] painted.deps.globals@[i]).0) by {
        assert(m == state.deps.global_types@.len());
        if i < m {
            assert(painted.deps.globals@[i] == state.deps.globals@[i]);
            assert(painted.deps.global_types@[i] == state.deps.global_types@[i]);
        } else {
            assert(painted.deps.global_types@[i] == cx_painted.accessed.globals@[i - m]);
        }
    }
}

/// A view that was rendered keeps account of the views that were drawn in it: those whose states were
/// kept since it was begun, and no others.
pub proof fn law_views_know_the_views_in_them(
    state: ViewElementState,
    rendering: Rendering,
    window: Window,
    cx: App,
    place: u64,
)
    requires
        rendered_state(state, rendering, window, cx),
        rendering.states_start <= window.next.states@.len(),
    ensures
        state.nested@.contains(place) <==> exists|i: int|
            rendering.states_start <= i < window.next.states@.len() && (
            #[trigger] window.next.states@[i]).id.0 == place,
{
    let start = rendering.states_start as int;
    let states = window.next.states@;
    if state.nested@.contains(place) {
        let k = choose|k: int| 0 <= k < state.nested@.len() && state.nested@[k] == place;
        assert(states[start + k].id.0 == place);
    }
    if exists|i: int| start <= i < states.len() && (#[trigger] states[i]).id.0 == place {
        let i = choose|i: int| start <= i < states.len() && (#[trigger] states[i]).id.0 == place;
        assert(state.nested@[i - start] == place);
    }
}

/// What a view reads, the views around it read too: once it is drawn, everything that was read before it
/// was begun counts as read, and everything that was read while it was drawn, entities, globals and
/// inputs. While it is drawn only its own reads are counted. The views that are being drawn are then
/// those from before.
pub proof fn law_reads_count_for_enclosing_views(
    before: Window,
    cx_before: App,
    entity: EntityId,
    id: GlobalElementId,
    bounds: Bounds<Pixels>,
    rendering: Rendering,
    begun: Window,
    cx_begun: App,
    drawn: Window,
    cx_drawn: App,
    after: Window,
    cx_after: App,
    read: u64,
)
    requires
        began_rendering(before, cx_before, entity, id, bounds, rendering, begun, cx_begun),
        drawn.rendered_views@ == begun.rendered_views@,
        finished_view(
            drawn,
            cx_drawn,
            id,
            rendering.outer_accessed,
            rendering.outer_input_reads,
            after,
            cx_after,
        ),
    ensures
        cx_begun.accessed.entities@.len() == 0,
        cx_begun.accessed.globals@.len() == 0,
        begun.input_reads == 0,
        begun.view_id == Some(entity),
        begun.rendered_views@.len() == before.rendered_views@.len() + 1,
        begun.rendered_views@.last() == entity,
        cx_after.accessed.entities@.contains(read) <==> cx_before.accessed.entities@.contains(read)
            || cx_drawn.accessed.entities@.contains(read),
        cx_after.accessed.globals@.contains(read) <==> cx_before.accessed.globals@.contains(read)
            || cx_drawn.accessed.globals@.contains(read),
        after.input_reads % 2 == 1 <==> before.input_reads % 2 == 1 || drawn.input_reads % 2 == 1,
        (after.input_reads / 2) % 2 == 1 <==> (before.input_reads / 2) % 2 == 1 || (
        drawn.input_reads / 2) % 2 == 1,
        after.rendered_views@ == before.rendered_views@,
        after.next.states@.last().id == id,
        after.next.states@.len() == drawn.next.states@.len() + 1,
{
    lemma_joined_contains(cx_before.accessed.entities@, cx_drawn.accessed.entities@, read);
    lemma_joined_contains(cx_before.accessed.globals@, cx_drawn.accessed.globals@, read);
    law_leaving_undoes_entering(before.rendered_views@, entity);
    let a = before.input_reads;
    let b = drawn.input_reads;
    assert((a | b) % 2 == 1 <==> a % 2 == 1 || b % 2 == 1) by (bit_vector);
    assert(((a | b) / 2) % 2 == 1 <==> (a / 2) % 2 == 1 || (b / 2) % 2 == 1) by (bit_vector);
}

/// The same of what a view reads while it is painted.
pub proof fn law_reads_while_painting_count_for_enclosing_views(
    before: Window,
    cx_before: App,
    entity: EntityId,
    id: GlobalElementId,
    painting: Painting,
    begun: Window,
    cx_begun: App,
    drawn: Window,
    cx_drawn: App,
    after: Window,
    cx_after: App,
    read: u64,
)
    requires
        began_painting(before, cx_before, entity, id, painting, begun, cx_begun),
        drawn.rendered_views@ == begun.rendered_views@,
        finished_view(
            drawn,
            cx_drawn,
            id,
            painting.outer_accessed,
            painting.outer_input_reads,
            after,
            cx_after,
        ),
    ensures
        cx_begun.accessed.entities@.len() == 0,
        cx_begun.accessed.globals@.len() == 0,
        begun.input_reads == 0,
        begun.rendered_views@.len() == before.rendered_views@.len() + 1,
        begun.rendered_views@.last() == entity,
        cx_after.accessed.entities@.contains(read) <==> cx_before.accessed.entities@.contains(read)
            || cx_drawn.accessed.entities@.contains(read),
        cx_after.accessed.globals@.contains(read) <==> cx_before.accessed.globals@.contains(read)
            || cx_drawn.accessed.globals@.contains(read),
        after.input_reads % 2 == 1 <==> before.input_reads % 2 == 1 || drawn.input_reads % 2 == 1,
        (after.input_reads / 2) % 2 == 1 <==> (before.input_reads / 2) % 2 == 1 || (
        drawn.input_reads / 2) % 2 == 1,
        after.rendered_views@ == before.rendered_views@,
        after.next.states@.last().id == id,
        after.next.states@.len() == drawn.next.states@.len() + 1,
{
    lemma_joined_contains(cx_before.accessed.entities@, cx_drawn.accessed.entities@, read);
    lemma_joined_contains(cx_before.accessed.globals@, cx_drawn.accessed.globals@, read);
    law_leaving_undoes_entering(before.rendered_views@, entity);
    let a = before.input_reads;
    let b = drawn.input_reads;
    assert((a | b) % 2 == 1 <==> a % 2 == 1 || b % 2 == 1) by (bit_vector);
    assert(((a | b) / 2) % 2 == 1 <==> (a / 2) % 2 == 1 || (b / 2) % 2 == 1) by (bit_vector);
}

/// What a view drew is in the frame where its state says: from where the frame was when it was begun to
/// where it was when it ended, while prepainting and while painting.
pub proof fn law_a_view_is_where_it_was_drawn(
    before: Window,
    cx_before: App,
    entity: EntityId,
    id: GlobalElementId,
    bounds: Bounds<Pixels>,
    rendering: Rendering,
    begun: Window,
    cx_begun: App,
    drawn: Window,
    cx_drawn: App,
    state: ViewElementState,
    more: Seq<u64>,
)
    requires
        began_rendering(before, cx_before, entity, id, bounds, rendering, begun, cx_begun),
        rendered_state(state, rendering, drawn, cx_drawn),
        drawn.next.prepaint@ == before.next.prepaint@ + more,
        drawn.next.prepaint@.len() <= usize::MAX,
    ensures
        recorded(drawn.next.prepaint@, state.prepaint_range) == more,
        state.paint_range is Unpainted,
{
    assert(recorded(drawn.next.prepaint@, state.prepaint_range) =~= more);
}

/// The same of painting.
pub proof fn law_a_view_is_where_it_was_painted(
    before: Window,
    cx_before: App,
    entity: EntityId,
    id: GlobalElementId,
    painting: Painting,
    begun: Window,
    cx_begun: App,
    drawn: Window,
    cx_drawn: App,
    state: ViewElementState,
    more: Seq<u64>,
)
    requires
        began_painting(before, cx_before, entity, id, painting, begun, cx_begun),
        painted_state(state, painting, drawn, cx_drawn),
        drawn.next.paint@ == before.next.paint@ + more,
        drawn.next.paint@.len() <= usize::MAX,
    ensures
        state.paint_range is Next,
        recorded(drawn.next.paint@, state.paint_range->Next_0) == more,
        state.prepaint_range == before.spec_state(id)->0.prepaint_range,
        state.nested == before.spec_state(id)->0.nested,
{
    assert(recorded(drawn.next.paint@, state.paint_range->Next_0) =~= more);
}

/// The state of a view is that of the frame that is being drawn, where it has one there, and else that
/// of the frame that is shown; the first under its id counts.
pub proof fn law_states_are_found_by_their_ids(window: Window, id: GlobalElementId, index: int)
    ensures
        0 <= index < window.next.states@.len() && window.next.states@[index].id == id && (forall|
            j: int,
        | 0 <= j < index ==> (#[trigger] window.next.states@[j]).id != id) ==> window.spec_state(id)
            == Some(window.next.states@[index].state),
        0 <= index < window.rendered.states@.len() && window.rendered.states@[index].id == id && (
        forall|j: int| 0 <= j < index ==> (#[trigger] window.rendered.states@[j]).id != id) && (
        forall|j: int|
            0 <= j < window.next.states@.len() ==> (#[trigger] window.next.states@[j]).id != id)
            ==> window.spec_state(id) == Some(window.rendered.states@[index].state),
        (forall|j: int|
            0 <= j < window.next.states@.len() ==> (#[trigger] window.next.states@[j]).id != id) && (
        forall|j: int|
            0 <= j < window.rendered.states@.len() ==> (#[trigger] window.rendered.states@[j]).id
                != id) ==> window.spec_state(id) is None,
{
    lemma_position_bounds(window.next.states@, id);
    lemma_position_bounds(window.rendered.states@, id);
}

/// A view that is reused keeps all that is known of it but where it is. It is the last of the frame, the
/// views around it depend on its inputs, and nothing else of the window changes.
pub proof fn law_a_reused_view_stays_what_it_is(
    before: Window,
    cx_before: App,
    entity: EntityId,
    id: GlobalElementId,
    after: Window,
    cx_after: App,
    read: u64,
)
    requires
        before.spec_state(id) is Some,
        reused_prepaint(before, cx_before, entity, id, after, cx_after),
    ensures
        ({
            let state = before.spec_state(id)->0;
            let entry = after.next.states@.last();
            &&& entry.id == id
            &&& entry.state == ViewElementState {
                prepaint_range: entry.state.prepaint_range,
                ..state
            }
            &&& after.view_id == Some(entity)
            &&& after.input_reads % 2 == 1 <==> before.input_reads % 2 == 1 || state.deps.mouse
                is Some
            &&& (after.input_reads / 2) % 2 == 1 <==> (before.input_reads / 2) % 2 == 1
                || state.deps.modifiers is Some
            &&& cx_after.accessed.entities@.contains(read)
                <==> cx_before.accessed.entities@.contains(read)
                || state.accessed_entities@.contains(read)
            &&& cx_after.accessed.globals@.contains(read)
                <==> cx_before.accessed.globals@.contains(read)
                || state.deps.global_types@.contains(read)
            &&& after.rendered_views@ == before.rendered_views@
            &&& after.next.paint@ == before.next.paint@
            &&& after.dirty_views == before.dirty_views
            &&& after.content_mask == before.content_mask
            &&& after.text_style == before.text_style
            &&& after.element_ids == before.element_ids
        }),
{
    let state = before.spec_state(id)->0;
    lemma_joined_contains(cx_before.accessed.entities@, state.accessed_entities@, read);
    lemma_joined_contains(cx_before.accessed.globals@, state.deps.global_types@, read);
    let a = before.input_reads;
    let b = state.deps.spec_inputs();
    assert((a | b) % 2 == 1 <==> a % 2 == 1 || b % 2 == 1) by (bit_vector);
    assert(((a | b) / 2) % 2 == 1 <==> (a / 2) % 2 == 1 || (b / 2) % 2 == 1) by (bit_vector);
    assert((1u8 | 2u8) % 2 == 1 && ((1u8 | 2u8) / 2) % 2 == 1 && (1u8 | 0u8) % 2 == 1 && ((1u8 | 0u8)
        / 2) % 2 == 0 && (0u8 | 2u8) % 2 == 0 && ((0u8 | 2u8) / 2) % 2 == 1 && (0u8 | 0u8) % 2 == 0
        && ((0u8 | 0u8) / 2) % 2 == 0) by (bit_vector);
}

// ---- views within views ------------------------------------------------------------------------

/// A view in which another one was reused depends on everything that the inner one depends on. So
/// if a dependency of the inner view changes, the outer one is drawn anew too, and asks it.
///
/// `window` and `cx` are as the outer view's rendering ends; what was read only accumulates until
/// then.
pub proof fn law_enclosing_view_depends_on_reused_view(
    before: Window,
    cx_before: App,
    inner: EntityId,
    inner_id: GlobalElementId,
    after: Window,
    cx_after: App,
    outer_state: ViewElementState,
    rendering: Rendering,
    window: Window,
    cx: App,
    outer: EntityId,
    bounds: Bounds<Pixels>,
    now: Window,
    cx_now: App,
)
    requires
        before.spec_state(inner_id) is Some,
        reused_prepaint(before, cx_before, inner, inner_id, after, cx_after),
        tracks_its_reads(before.spec_state(inner_id)->0),
        // The inner view was reused because nothing had changed.
        !before.spec_state(inner_id)->0.deps.spec_entities_changed(cx),
        !before.spec_state(inner_id)->0.deps.spec_globals_changed(cx),
        // The outer view's rendering ends.
        rendered_state(outer_state, rendering, window, cx),
        forall|e: u64|
            cx_after.accessed.entities@.contains(e) ==> #[trigger] cx.accessed.entities@.contains(e),
        forall|g: u64|
            cx_after.accessed.globals@.contains(g) ==> #[trigger] cx.accessed.globals@.contains(g),
        window.input_reads & after.input_reads == after.input_reads,
        // A dependency of the inner view changes.
        before.spec_state(inner_id)->0.deps.spec_entities_changed(cx_now) || before.spec_state(
            inner_id,
        )->0.deps.spec_globals_changed(cx_now) || (before.spec_state(
            inner_id,
        )->0.deps.mouse is Some && !window.mouse_position.same(now.mouse_position)) || (
        before.spec_state(inner_id)->0.deps.modifiers is Some && window.modifiers
            != now.modifiers),
    ensures
        !(cache_outcome(Some(outer_state), outer, bounds, now, cx_now) is Hit),
{
    let state = before.spec_state(inner_id)->0;
    if state.deps.spec_entities_changed(cx_now) {
        let i = choose|i: int|
            0 <= i < state.deps.entities@.len() && cx_now.spec_notify_version(
                EntityId((#[trigger] state.deps.entities@[i]).0),
            ) != state.deps.entities@[i].1;
        let read = EntityId(state.deps.entities@[i].0);
        lemma_joined_contains(
            cx_before.accessed.entities@,
            state.accessed_entities@,
            read.0,
        );
        assert(cx.accessed.entities@.contains(read.0));
        assert(cx.spec_notify_version(read) == state.deps.entities@[i].1);
        law_changed_entity_draws_readers_anew(
            outer_state,
            rendering,
            window,
            cx,
            read,
            outer,
            bounds,
            now,
            cx_now,
        );
    } else if state.deps.spec_globals_changed(cx_now) {
        let i = choose|i: int|
            0 <= i < state.deps.globals@.len() && cx_now.spec_global_version(
                TypeId((#[trigger] state.deps.globals@[i]).0),
            ) != state.deps.globals@[i].1;
        let read = TypeId(state.deps.globals@[i].0);
        lemma_joined_contains(
            cx_before.accessed.globals@,
            state.deps.global_types@,
            read.0,
        );
        assert(cx.accessed.globals@.contains(read.0));
        assert(cx.spec_global_version(read) == state.deps.globals@[i].1);
        law_changed_global_draws_readers_anew(
            outer_state,
            rendering,
            window,
            cx,
            read,
            outer,
            bounds,
            now,
            cx_now,
        );
    } else {
        let reads = window.input_reads;
        let inside = after.input_reads;
        let earlier = before.input_reads;
        let inputs = state.deps.spec_inputs();
        assert((INPUT_MOUSE | 0u8) & INPUT_MOUSE != 0 && (INPUT_MOUSE | INPUT_MODIFIERS)
            & INPUT_MOUSE != 0 && (0u8 | INPUT_MODIFIERS) & INPUT_MODIFIERS != 0 && (INPUT_MOUSE
            | INPUT_MODIFIERS) & INPUT_MODIFIERS != 0) by (bit_vector);
        assert(inside == earlier | inputs && reads & inside == inside && inputs & 1u8 != 0
            ==> reads & 1u8 != 0) by (bit_vector);
        assert(inside == earlier | inputs && reads & inside == inside && inputs & 2u8 != 0
            ==> reads & 2u8 != 0) by (bit_vector);
        law_changed_input_draws_readers_anew(
            outer_state,
            rendering,
            window,
            cx,
            outer,
            bounds,
            now,
            cx_now,
        );
    }
}

proof fn lemma_position_bounds(states: Seq<StateEntry>, id: GlobalElementId)
    ensures
        position(states, id) matches Some(i) ==> 0 <= i < states.len() && states[i].id == id
            && forall|j: int| 0 <= j < i ==> (#[trigger] states[j]).id != id,
        position(states, id) is None ==> forall|j: int|
            0 <= j < states.len() ==> (#[trigger] states[j]).id != id,
    decreases states.len(),
{
    if states.len() > 0 {
        lemma_position_bounds(states.drop_last(), id);
        let shorter = states.drop_last();
        assert(forall|j: int| 0 <= j < shorter.len() ==> #[trigger] states[j] == shorter[j]);
    }
}

/// Taking out a state leaves the states under other ids.
proof fn lemma_other_state(states: Seq<StateEntry>, removed: int, id: GlobalElementId)
    requires
        0 <= removed < states.len(),
        states[removed].id != id,
    ensures
        position(states, id) is Some == position(states.remove(removed), id) is Some,
        position(states, id) is Some ==> states[position(states, id)->0] == states.remove(removed)[
        position(states.remove(removed), id)->0],
{
    let others = states.remove(removed);
    lemma_position_bounds(states, id);
    lemma_position_bounds(others, id);
    if let Some(i) = position(states, id) {
        let k = if i < removed {
            i
        } else {
            i - 1
        };
        assert(others[k] == states[i]);
        if let Some(m) = position(others, id) {
            let n = if m < removed {
                m
            } else {
                m + 1
            };
            assert(others[m] == states[n]);
        }
    } else if let Some(m) = position(others, id) {
        let n = if m < removed {
            m
        } else {
            m + 1
        };
        assert(others[m] == states[n]);
    }
}

/// A view that is drawn anew does not force the cached views within it to be drawn anew: each
/// decides by itself, as if the outer one had not been begun.
pub proof fn law_nested_views_decide_for_themselves(
    before: Window,
    cx_before: App,
    outer: EntityId,
    outer_id: GlobalElementId,
    outer_bounds: Bounds<Pixels>,
    rendering: Rendering,
    after: Window,
    cx_after: App,
    inner: EntityId,
    inner_id: GlobalElementId,
    bounds: Bounds<Pixels>,
)
    requires
        began_rendering(
            before,
            cx_before,
            outer,
            outer_id,
            outer_bounds,
            rendering,
            after,
            cx_after,
        ),
        inner_id != outer_id,
    ensures
        cache_outcome(after.spec_state(inner_id), inner, bounds, after, cx_after) == cache_outcome(
            before.spec_state(inner_id),
            inner,
            bounds,
            before,
            cx_before,
        ),
{
    lemma_position_bounds(before.rendered.states@, outer_id);
    if let Some(i) = position(before.rendered.states@, outer_id) {
        lemma_other_state(before.rendered.states@, i, inner_id);
    }
    assert(after.spec_state(inner_id) == before.spec_state(inner_id));
    if let Some(state) = before.spec_state(inner_id) {
        lemma_same_versions(state, cx_before, cx_after);
    }
}

proof fn lemma_same_versions(state: ViewElementState, a: App, b: App)
    requires
        a.notify_versions == b.notify_versions,
        a.global_versions == b.global_versions,
    ensures
        state.deps.spec_entities_changed(a) == state.deps.spec_entities_changed(b),
        state.deps.spec_globals_changed(a) == state.deps.spec_globals_changed(b),
{
    assert forall|e: EntityId| a.spec_notify_version(e) == b.spec_notify_version(e) by {}
    assert forall|g: TypeId| a.spec_global_version(g) == b.spec_global_version(g) by {}
    if state.deps.spec_entities_changed(a) {
        let i = choose|i: int|
            0 <= i < state.deps.entities@.len() && a.spec_notify_version(
                EntityId((#[trigger] state.deps.entities@[i]).0),
            ) != state.deps.entities@[i].1;
        assert(b.spec_notify_version(EntityId(state.deps.entities@[i].0))
            != state.deps.entities@[i].1);
    }
    if state.deps.spec_globals_changed(a) {
        let i = choose|i: int|
            0 <= i < state.deps.globals@.len() && a.spec_global_version(
                TypeId((#[trigger] state.deps.globals@[i]).0),
            ) != state.deps.globals@[i].1;
        assert(b.spec_global_version(TypeId(state.deps.globals@[i].0))
            != state.deps.globals@[i].1);
    }
}

// ---- what a reused view draws ------------------------------------------------------------------

/// The part of a record that a stretch covers.
pub open spec fn recorded(record: Seq<u64>, span: Span) -> Seq<u64> {
    record.subrange(span.start as int, span.end as int)
}

/// A reused view contributes to the frame exactly what it contributed to the one before; effects
/// that it recorded run in every frame.
pub proof fn law_reuse_repeats_the_prepaint(
    before: Window,
    cx_before: App,
    entity: EntityId,
    id: GlobalElementId,
    after: Window,
    cx_after: App,
)
    requires
        before.wf(),
        position(before.next.states@, id) is None,
        before.spec_state(id) is Some,
        after.next.prepaint@.len() <= usize::MAX,
        reused_prepaint(before, cx_before, entity, id, after, cx_after),
    ensures
        recorded(after.next.prepaint@, after.next.states@.last().state.prepaint_range) == recorded(
            before.rendered.prepaint@,
            before.spec_state(id)->0.prepaint_range,
        ),
        after.next.prepaint@ == before.next.prepaint@ + recorded(
            before.rendered.prepaint@,
            before.spec_state(id)->0.prepaint_range,
        ),
{
    lemma_position_bounds(before.rendered.states@, id);
    let span = before.spec_state(id)->0.prepaint_range;
    assert(span.fits(before.rendered.prepaint@.len()));
    assert(recorded(after.next.prepaint@, after.next.states@.last().state.prepaint_range)
        =~= recorded(before.rendered.prepaint@, span));
}

proof fn lemma_carried_has(
    states: Seq<StateEntry>,
    nested: Seq<u64>,
    span: Span,
    to: usize,
    i: int,
)
    requires
        0 <= i < states.len(),
        states[i].follows(nested, span),
    ensures
        carried(states, nested, span, to).contains(states[i].prepainted_at(span.start, to)),
    decreases states.len(),
{
    let all = carried(states, nested, span, to);
    let shorter = states.drop_last();
    let entry = states[i].prepainted_at(span.start, to);
    if i == states.len() - 1 {
        assert(all[all.len() - 1] == entry);
    } else {
        lemma_carried_has(shorter, nested, span, to, i);
        let before = carried(shorter, nested, span, to);
        let k = choose|k: int| 0 <= k < before.len() && before[k] == entry;
        assert(all[k] == entry);
    }
}

/// What is recorded of the views within a reused view follows it to its new place in the frame:
/// under the same id there is a state whose stretch of the new frame holds what the old one held of
/// the old frame. So a later frame that draws the outer view anew and reuses an inner one repeats
/// the right part.
pub proof fn law_nested_views_follow_a_reused_view(
    before: Window,
    cx_before: App,
    entity: EntityId,
    id: GlobalElementId,
    after: Window,
    cx_after: App,
    index: int,
)
    requires
        before.wf(),
        position(before.next.states@, id) is None,
        before.spec_state(id) is Some,
        after.next.prepaint@.len() <= usize::MAX,
        reused_prepaint(before, cx_before, entity, id, after, cx_after),
        0 <= index < other_states(before, id).len(),
        other_states(before, id)[index].follows(
            before.spec_state(id)->0.nested@,
            before.spec_state(id)->0.prepaint_range,
        ),
    ensures
        exists|j: int|
            0 <= j < after.next.states@.len() && (#[trigger] after.next.states@[j]).id
                == other_states(before, id)[index].id && recorded(
                after.next.prepaint@,
                after.next.states@[j].state.prepaint_range,
            ) == recorded(
                before.rendered.prepaint@,
                other_states(before, id)[index].state.prepaint_range,
            ),
{
    lemma_position_bounds(before.rendered.states@, id);
    let state = before.spec_state(id)->0;
    let span = state.prepaint_range;
    let to = before.next.prepaint@.len() as usize;
    let others = other_states(before, id);
    let entry = others[index];
    let moved = entry.prepainted_at(span.start, to);
    lemma_carried_has(others, state.nested@, span, to, index);
    let more = carried(others, state.nested@, span, to);
    let k = choose|k: int| 0 <= k < more.len() && more[k] == moved;
    let j = before.next.states@.len() + k;
    assert(after.next.states@[j] == moved);
    assert(span.fits(before.rendered.prepaint@.len()));
    assert(recorded(after.next.prepaint@, moved.state.prepaint_range) =~= recorded(
        before.rendered.prepaint@,
        entry.state.prepaint_range,
    ));
}

/// The same of painting: a reused view paints what the shown frame has where the view was last
/// painted. That is what it painted itself, where it was painted in the shown frame.
pub proof fn law_reuse_repeats_the_paint(before: Window, id: GlobalElementId, after: Window)
    requires
        before.wf(),
        position(before.next.states@, id) is Some,
        after.next.paint@.len() <= usize::MAX,
        reused_paint(before, id, after),
    ensures
        after.next.states@.last().state.paint_range matches PaintRange::Next(span) && recorded(
            after.next.paint@,
            span,
        ) == recorded(
            before.rendered.paint@,
            repeated_paint(before.spec_state(id)->0.paint_range),
        ),
{
    lemma_position_bounds(before.next.states@, id);
    let i = position(before.next.states@, id)->0;
    assert(before.next.states@[i].state == before.spec_state(id)->0);
    let span = repeated_paint(before.spec_state(id)->0.paint_range);
    let to = Span { start: before.next.paint@.len() as usize, end: after.next.paint@.len() as usize };
    assert(recorded(after.next.paint@, to) =~= recorded(before.rendered.paint@, span));
}

/// When a reused view's painting is repeated, every nested view whose painting lay in the repeated
/// stretch has a stretch of the new frame that holds exactly the items that its old one held of the
/// shown frame, as far behind the first of them as it was. The others are painted where they were, and
/// nothing else of any state changes.
///
/// `own` is the place of the view's own state, `span` the stretch that is repeated.
pub proof fn law_nested_views_follow_a_reused_painting(
    before: Window,
    id: GlobalElementId,
    after: Window,
    own: int,
    span: Span,
    index: int,
)
    requires
        before.wf(),
        0 <= own < before.next.states@.len(),
        before.next.states@[own].id == id,
        forall|j: int| 0 <= j < own ==> (#[trigger] before.next.states@[j]).id != id,
        ({
            let range = before.next.states@[own].state.paint_range;
            range == PaintRange::Rendered(span) || range == PaintRange::Outdated(span)
        }),
        span.start <= span.end <= before.rendered.paint@.len(),
        after.next.paint@.len() <= usize::MAX,
        reused_paint(before, id, after),
        0 <= index < before.next.states@.len(),
        index != own,
    ensures
        after.next.states@.len() == before.next.states@.len(),
        ({
            let old_entry = before.next.states@[index];
            let new_entry = after.next.states@[if index < own {
                index
            } else {
                index - 1
            }];
            let nested = before.next.states@[own].state.nested@;
            &&& new_entry.id == old_entry.id
            &&& new_entry.state == ViewElementState {
                paint_range: new_entry.state.paint_range,
                ..old_entry.state
            }
            &&& match old_entry.state.paint_range {
                PaintRange::Rendered(range) => if nested.contains(old_entry.id.0) && span.start
                    <= range.start <= range.end <= span.end {
                    &&& new_entry.state.paint_range is Next
                    &&& recorded(after.next.paint@, new_entry.state.paint_range->Next_0)
                        == recorded(before.rendered.paint@, range)
                    &&& new_entry.state.paint_range->Next_0.start - before.next.paint@.len()
                        == range.start - span.start
                    &&& new_entry.state.paint_range->Next_0.end - before.next.paint@.len()
                        == range.end - span.start
                } else {
                    new_entry.state.paint_range == old_entry.state.paint_range
                },
                range => new_entry.state.paint_range == range,
            }
        }),
{
    lemma_position_bounds(before.next.states@, id);
    assert(position(before.next.states@, id) == Some(own));
    let states = before.next.states@;
    let k = if index < own {
        index
    } else {
        index - 1
    };
    let others = states.remove(own);
    assert(others[k] == states[index]);
    let nested = states[own].state.nested@;
    let to = before.next.paint@.len() as usize;
    assert(after.next.states@[k] == states[index].painted_at(nested, span, to));
    if let PaintRange::Rendered(range) = states[index].state.paint_range {
        if nested.contains(states[index].id.0) && span.start <= range.start <= range.end
            <= span.end {
            let moved = after.next.states@[k].state.paint_range->Next_0;
            assert(recorded(after.next.paint@, moved) =~= recorded(before.rendered.paint@, range));
        }
    }
}

/// When a reused view's prepainting is repeated, every nested view that was prepainted in the repeated
/// stretch has its state carried to the new frame, with a stretch that holds exactly what the old one
/// held, as far behind the first item as it was, and nothing else changed. The states of all other
/// views stay with the shown frame as they are.
///
/// `own` is the place of the view's own state.
pub proof fn law_nested_views_follow_a_reused_prepaint(
    before: Window,
    cx_before: App,
    entity: EntityId,
    id: GlobalElementId,
    after: Window,
    cx_after: App,
    own: int,
    index: int,
)
    requires
        before.wf(),
        forall|j: int| 0 <= j < before.next.states@.len() ==> (#[trigger] before.next.states@[j]).id
            != id,
        0 <= own < before.rendered.states@.len(),
        before.rendered.states@[own].id == id,
        forall|j: int| 0 <= j < own ==> (#[trigger] before.rendered.states@[j]).id != id,
        after.next.prepaint@.len() <= usize::MAX,
        reused_prepaint(before, cx_before, entity, id, after, cx_after),
        0 <= index < before.rendered.states@.len(),
        index != own,
    ensures
        ({
            let entry = before.rendered.states@[index];
            let state = before.rendered.states@[own].state;
            let span = state.prepaint_range;
            let range = entry.state.prepaint_range;
            if state.nested@.contains(entry.id.0) && span.start <= range.start <= range.end
                <= span.end {
                exists|j: int|
                    0 <= j < after.next.states@.len() && carries(
                        before,
                        after,
                        entry,
                        span,
                        #[trigger] after.next.states@[j],
                    )
            } else {
                exists|j: int|
                    0 <= j < after.rendered.states@.len() && #[trigger] after.rendered.states@[j]
                        == entry
            }
        }),
{
    lemma_position_bounds(before.next.states@, id);
    lemma_position_bounds(before.rendered.states@, id);
    assert(position(before.rendered.states@, id) == Some(own));
    let states = before.rendered.states@;
    let others = states.remove(own);
    let k = if index < own {
        index
    } else {
        index - 1
    };
    assert(others[k] == states[index]);
    let state = states[own].state;
    let span = state.prepaint_range;
    let entry = states[index];
    let range = entry.state.prepaint_range;
    let to = before.next.prepaint@.len() as usize;
    assert(span.fits(before.rendered.prepaint@.len()));
    if state.nested@.contains(entry.id.0) && span.start <= range.start <= range.end <= span.end {
        lemma_carried_has(others, state.nested@, span, to, k);
        let more = carried(others, state.nested@, span, to);
        let moved = entry.prepainted_at(span.start, to);
        let m = choose|m: int| 0 <= m < more.len() && more[m] == moved;
        let j = before.next.states@.len() + m;
        assert(after.next.states@[j] == moved);
        assert(recorded(after.next.prepaint@, moved.state.prepaint_range) =~= recorded(
            before.rendered.prepaint@,
            range,
        ));
        assert(carries(before, after, entry, span, after.next.states@[j]));
    } else {
        lemma_outside_has(others, state.nested@, span, k);
        let rest = outside(others, state.nested@, span);
        let j = choose|j: int| 0 <= j < rest.len() && rest[j] == entry;
        assert(after.rendered.states@[j] == entry);
    }
}

/// A state of the new frame is one of the shown frame, moved with the stretch that is repeated.
pub open spec fn carries(
    before: Window,
    after: Window,
    entry: StateEntry,
    span: Span,
    moved: StateEntry,
) -> bool {
    let range = entry.state.prepaint_range;
    let new_range = moved.state.prepaint_range;
    &&& moved.id == entry.id
    &&& moved.state == ViewElementState { prepaint_range: new_range, ..entry.state }
    &&& recorded(after.next.prepaint@, new_range) == recorded(before.rendered.prepaint@, range)
    &&& new_range.start - before.next.prepaint@.len() == range.start - span.start
    &&& new_range.end - before.next.prepaint@.len() == range.end - span.start
}

proof fn lemma_outside_has(states: Seq<StateEntry>, nested: Seq<u64>, span: Span, i: int)
    requires
        0 <= i < states.len(),
        !states[i].follows(nested, span),
    ensures
        outside(states, nested, span).contains(states[i]),
    decreases states.len(),
{
    let all = outside(states, nested, span);
    let shorter = states.drop_last();
    if i == states.len() - 1 {
        assert(all[all.len() - 1] == states[i]);
    } else {
        lemma_outside_has(shorter, nested, span, i);
        let before = outside(shorter, nested, span);
        let k = choose|k: int| 0 <= k < before.len() && before[k] == states[i];
        assert(all[k] == states[i]);
    }
}

/// When a frame is shown, the stretch in which a view was painted is one of the shown frame, so that
/// repeating it repeats what the view painted. A view that was not painted in it keeps the stretch
/// where it last was, but no other view moves with it. Nothing else of its state changes.
pub proof fn law_shown_views_are_where_they_were_painted(entry: StateEntry)
    ensures
        entry.shown().id == entry.id,
        entry.shown().state == (ViewElementState {
            paint_range: entry.shown().state.paint_range,
            ..entry.state
        }),
        entry.state.paint_range matches PaintRange::Next(span) ==> entry.shown().state.paint_range
            == PaintRange::Rendered(span) && repeated_paint(entry.shown().state.paint_range)
            == span,
        entry.state.paint_range matches PaintRange::Rendered(span) ==> {
            &&& repeated_paint(entry.shown().state.paint_range) == span
            &&& forall|nested: Seq<u64>, outer: Span, to: usize| #[trigger]
                entry.shown().painted_at(nested, outer, to) == entry.shown()
        },
        !(entry.state.paint_range is Next) && !(entry.state.paint_range is Rendered)
            ==> entry.shown() == entry,
{
}

/// A component is drawn in an id space of its own, that of the name of its type; nothing else of the window
/// changes, and leaving the space restores those around it.
pub proof fn law_components_have_their_own_ids(before: Window, name: TypeId, after: Window)
    requires
        began_component(before, name, after),
    ensures
        after.element_ids@.len() == before.element_ids@.len() + 1,
        after.element_ids@.last() == ElementId::Name(name),
        without_last(after.element_ids@) == before.element_ids@,
        after == (Window { element_ids: after.element_ids, ..before }),
{
    law_leaving_undoes_entering(before.element_ids@, ElementId::Name(name));
}

// ---- counts ------------------------------------------------------------------------------------

/// A prepaint of a view that was not rendered for its layout: what it was asked for, and what it met.
pub struct PrepaintCall {
    pub entity: EntityId,
    pub id: GlobalElementId,
    pub bounds: Bounds<Pixels>,
    pub window: Window,
    pub cx: App,
}

impl PrepaintCall {
    pub open spec fn outcome(self) -> CacheOutcome {
        cache_outcome(
            self.window.spec_state(self.id),
            self.entity,
            self.bounds,
            self.window,
            self.cx,
        )
    }
}

/// How many of the first prepaints had an outcome.
pub open spec fn with_outcome(calls: Seq<PrepaintCall>, count: nat, outcome: CacheOutcome) -> nat
    decreases count,
{
    if count == 0 {
        0
    } else {
        with_outcome(calls, (count - 1) as nat, outcome) + if calls[count - 1].outcome()
            == outcome {
            1nat
        } else {
            0
        }
    }
}

/// How often anything was counted.
pub open spec fn total(counts: Seq<u64>) -> int {
    counts[0] + counts[1] + counts[2] + counts[3] + counts[4] + counts[5] + counts[6] + counts[7]
        + counts[8] + counts[9]
}

/// The counters before each prepaint and after the last: they begin at zero, and each prepaint
/// counts its outcome.
pub open spec fn counters(calls: Seq<PrepaintCall>, counts: Seq<Seq<u64>>) -> bool {
    &&& counts.len() == calls.len() + 1
    &&& counts[0].len() == 10
    &&& forall|i: int| 0 <= i < 10 ==> #[trigger] counts[0][i] == 0
    &&& forall|i: int|
        0 <= i < calls.len() ==> counts[i + 1] == counted(
            counts[i],
            (#[trigger] calls[i]).outcome(),
        )
}

proof fn lemma_outcomes_counted(calls: Seq<PrepaintCall>, counts: Seq<Seq<u64>>, count: nat)
    requires
        counters(calls, counts),
        count <= calls.len() <= u64::MAX,
    ensures
        counts[count as int].len() == 10,
        total(counts[count as int]) == count,
        forall|outcome: CacheOutcome|
            counts[count as int][outcome.spec_index()] == #[trigger] with_outcome(
                calls,
                count,
                outcome,
            ),
    decreases count,
{
    if count == 0 {
        assert forall|outcome: CacheOutcome| counts[count as int][outcome.spec_index()]
            == #[trigger] with_outcome(calls, count, outcome) by {
            assert(counts[0][outcome.spec_index()] == 0);
        }
        assert(total(counts[0]) == 0);
    } else {
        lemma_outcomes_counted(calls, counts, (count - 1) as nat);
        let before = counts[count - 1];
        let outcome = calls[count - 1].outcome();
        assert(counts[count - 1 + 1] == counted(before, calls[count - 1].outcome()));
        assert(before[outcome.spec_index()] <= total(before));
        assert forall|other: CacheOutcome| counts[count as int][other.spec_index()]
            == #[trigger] with_outcome(calls, count, other) by {
            assert(before[other.spec_index()] == with_outcome(calls, (count - 1) as nat, other));
            assert(other != outcome ==> other.spec_index() != outcome.spec_index());
        }
    }
}

/// Every prepaint of a view that was not rendered for its layout is counted once, under its outcome:
/// the counts sum up to the number of prepaints, the first is the number of those whose view was
/// reused, and each of the others is the number of those that it was the first reason for not to be.
pub proof fn law_every_prepaint_is_counted_once(
    calls: Seq<PrepaintCall>,
    counts: Seq<Seq<u64>>,
)
    requires
        counters(calls, counts),
        calls.len() <= u64::MAX,
    ensures
        total(counts.last()) == calls.len(),
        forall|outcome: CacheOutcome|
            counts.last()[outcome.spec_index()] == #[trigger] with_outcome(
                calls,
                calls.len(),
                outcome,
            ),
        counts.last()[0] == with_outcome(calls, calls.len(), CacheOutcome::Hit),
{
    lemma_outcomes_counted(calls, counts, calls.len());
    assert(counts.last()[CacheOutcome::Hit.spec_index()] == with_outcome(
        calls,
        calls.len(),
        CacheOutcome::Hit,
    ));
}

} // verus!
