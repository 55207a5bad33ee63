//! Cached views behave like uncached ones: they may skip work only when nothing that they depend on
//! has changed.

use gpui_core::geometry::{Bounds, Pixels, Point, Real32, Size};
use gpui_core::view::cache::{finish_paint_view, finish_prepaint_view};
use gpui_core::view::element::{
    AnyEntity, AnyView, ElementLayout, ElementPaint, ElementPrepaint, Entity, RenderOnce,
    StyleRefinement, ViewElement,
};
use gpui_core::view::stats::{take_view_cache_stats, ViewCacheStats};
use gpui_core::view::window::{
    App, ContentMask, ElementId, EntityId, Frame, GlobalElementId, Modifiers, TextStyle, TypeId,
    Window, INPUT_MOUSE,
};
use std::collections::{HashMap, HashSet};
use std::marker::PhantomData;

fn pixels(value: f32) -> Pixels {
    Pixels(Real32 { bits: value.to_bits() })
}

fn square(side: f32) -> Bounds<Pixels> {
    Bounds {
        origin: Point { x: pixels(0.0), y: pixels(0.0) },
        size: Size { width: pixels(side), height: pixels(side) },
    }
}

fn no_modifiers() -> Modifiers {
    Modifiers { control: false, alt: false, shift: false, platform: false, function: false }
}

fn new_window() -> Window {
    Window {
        refreshing: false,
        inspector_picking: false,
        input_reads: 0,
        dirty_views: HashSet::new(),
        mouse_position: Point { x: pixels(0.0), y: pixels(0.0) },
        modifiers: no_modifiers(),
        content_mask: ContentMask { bounds: square(1000.0) },
        text_style: TextStyle(1),
        rendered_views: Vec::new(),
        element_ids: Vec::new(),
        view_id: None,
        rendered: Frame::new(),
        next: Frame::new(),
    }
}

/// A view of an entity that is cached wherever it is shown.
#[derive(Clone, Default)]
struct Shown {
    entity: u64,
    side: f32,
    /// Recorded while prepainting, once each.
    effects: Vec<u64>,
    reads: Vec<u64>,
    globals: Vec<u64>,
    reads_while_painting: Vec<u64>,
    globals_while_painting: Vec<u64>,
    reads_mouse_while_painting: bool,
    reads_mouse: bool,
    child: Option<Box<Shown>>,
}

/// What became of a view in a frame.
struct Drawn {
    element: ViewElement<AnyView>,
    rendered: bool,
    child: Option<Box<Drawn>>,
}

struct Harness {
    window: Window,
    cx: App,
    stats: ViewCacheStats,
    values: HashMap<u64, u32>,
    seen: u32,
    renders: HashMap<u64, usize>,
    paints: HashMap<u64, usize>,
    /// How often each effect ran over all frames.
    runs: HashMap<u64, usize>,
}

impl Harness {
    fn new() -> Harness {
        Harness {
            window: new_window(),
            cx: App::new(),
            stats: ViewCacheStats::new(),
            values: HashMap::new(),
            seen: 0,
            renders: HashMap::new(),
            paints: HashMap::new(),
            runs: HashMap::new(),
        }
    }

    fn renders_of(&self, entity: u64) -> usize {
        *self.renders.get(&entity).unwrap_or(&0)
    }

    fn paints_of(&self, entity: u64) -> usize {
        *self.paints.get(&entity).unwrap_or(&0)
    }

    fn runs_of(&self, effect: u64) -> usize {
        *self.runs.get(&effect).unwrap_or(&0)
    }

    fn notify(&mut self, entity: u64) {
        *self.cx.notify_versions.entry(entity).or_insert(0) += 1;
        self.window.dirty_views.insert(entity);
    }

    fn set_global(&mut self, global: u64, value: u32) {
        *self.cx.global_versions.entry(global).or_insert(0) += 1;
        self.values.insert(global, value);
    }

    fn prepaint(&mut self, shown: &Shown) -> Drawn {
        let handle: Entity<()> = Entity {
            entity: AnyEntity { entity_id: EntityId(shown.entity), entity_type: TypeId(7) },
            marker: PhantomData,
        };
        let mut element = AnyView::from(handle).cached(StyleRefinement(1));
        let layout = element.request_layout(TypeId(7), &mut self.window);
        self.window.leave_view();
        assert!(matches!(layout, ElementLayout::Style(StyleRefinement(1))));
        let id = GlobalElementId(shown.entity);
        let bounds = square(shown.side);
        let step = element.prepaint(
            TypeId(7),
            id,
            bounds,
            false,
            &mut self.window,
            &mut self.cx,
            &mut self.stats,
        );
        match step {
            ElementPrepaint::Reused => Drawn { element, rendered: false, child: None },
            ElementPrepaint::Render(view, rendering) => {
                assert_eq!(view.entity_id(), EntityId(shown.entity));
                *self.renders.entry(shown.entity).or_insert(0) += 1;
                self.cx.extend_accessed(&shown.reads);
                self.cx.extend_accessed_globals(&shown.globals);
                for read in shown.reads.iter().chain(shown.globals.iter()) {
                    self.seen = *self.values.get(read).unwrap_or(&0);
                }
                if shown.reads_mouse {
                    self.window.input_reads |= INPUT_MOUSE;
                }
                for effect in &shown.effects {
                    self.window.next.prepaint.push(*effect);
                }
                let child = shown.child.as_ref().map(|child| Box::new(self.prepaint(child)));
                finish_prepaint_view(id, rendering, &mut self.window, &mut self.cx);
                Drawn { element, rendered: true, child }
            }
            _ => panic!("a cached view is reused or rendered"),
        }
    }

    fn paint(&mut self, shown: &Shown, drawn: &mut Drawn) {
        let id = GlobalElementId(shown.entity);
        let rendered = drawn.rendered;
        match drawn.element.paint(TypeId(7), id, rendered, &mut self.window, &mut self.cx) {
            ElementPaint::Reused => assert!(!rendered),
            ElementPaint::Cached(painting) => {
                *self.paints.entry(shown.entity).or_insert(0) += 1;
                self.window.next.paint.push(shown.entity);
                self.cx.extend_accessed(&shown.reads_while_painting);
                self.cx.extend_accessed_globals(&shown.globals_while_painting);
                if shown.reads_mouse_while_painting {
                    self.window.input_reads |= INPUT_MOUSE;
                }
                for read in &shown.reads_while_painting {
                    self.seen = *self.values.get(read).unwrap_or(&0);
                }
                if let (Some(child), Some(drawn)) = (&shown.child, &mut drawn.child) {
                    self.paint(child, drawn);
                }
                finish_paint_view(id, painting, &mut self.window, &mut self.cx);
            }
            _ => panic!("a cached view is reused or painted"),
        }
    }

    /// Draws a frame: some effects, and then a cached view.
    fn draw_after(&mut self, prefix: &[u64], shown: &Shown) {
        for effect in prefix {
            self.window.next.prepaint.push(*effect);
        }
        let mut drawn = self.prepaint(shown);
        self.paint(shown, &mut drawn);
        for effect in &self.window.next.prepaint {
            *self.runs.entry(*effect).or_insert(0) += 1;
        }
        assert!(self.window.rendered_views.is_empty());
        self.window.finish_frame();
        self.window.dirty_views.clear();
    }

    fn draw(&mut self, shown: &Shown) {
        self.draw_after(&[], shown);
    }
}

#[test]
fn replayable_effects_run_when_a_cached_view_is_reused() {
    let mut harness = Harness::new();
    let view = Shown { entity: 1, side: 100.0, effects: vec![9], ..Shown::default() };
    harness.draw(&view);
    assert_eq!((harness.runs_of(9), harness.renders_of(1)), (1, 1));

    harness.draw(&view);
    harness.draw(&view);
    assert_eq!(harness.renders_of(1), 1, "the view is reused, not prepainted again");
    assert_eq!(harness.runs_of(9), 3, "yet its effect still runs on every frame");

    harness.notify(1);
    harness.draw(&view);
    assert!(harness.renders_of(1) > 1, "a notified view is prepainted again");

    let (effects, prepaints_before) = (harness.runs_of(9), harness.renders_of(1));
    harness.draw(&view);
    assert_eq!(harness.renders_of(1), prepaints_before, "and is reused afterwards");
    assert_eq!(harness.runs_of(9), effects + 1, "with its effect still running");
}

#[test]
fn cached_view_rerenders_when_an_entity_it_read_is_notified() {
    let mut harness = Harness::new();
    harness.values.insert(50, 1);
    let view = Shown { entity: 1, side: 100.0, reads: vec![50], ..Shown::default() };
    harness.draw(&view);
    assert_eq!((harness.renders_of(1), harness.seen), (1, 1));

    harness.draw(&view);
    harness.draw(&view);
    assert_eq!(harness.renders_of(1), 1, "nothing changed, so the view is reused");

    harness.values.insert(50, 2);
    harness.notify(50);
    harness.draw(&view);
    assert_eq!(harness.seen, 2, "the view shows the new value");

    let renders_now = harness.renders_of(1);
    harness.draw(&view);
    assert_eq!(harness.renders_of(1), renders_now, "and is reused again afterwards");
}

#[test]
fn cached_view_repaints_when_an_entity_read_only_while_painting_changes() {
    let mut harness = Harness::new();
    harness.values.insert(50, 1);
    let view = Shown { entity: 1, side: 100.0, reads_while_painting: vec![50], ..Shown::default() };
    harness.draw(&view);
    assert_eq!((harness.paints_of(1), harness.seen), (1, 1));

    harness.draw(&view);
    harness.draw(&view);
    assert_eq!(harness.paints_of(1), 1, "nothing changed, so the view is reused");

    harness.values.insert(50, 2);
    harness.notify(50);
    harness.draw(&view);
    assert_eq!(harness.seen, 2, "the view paints the new value");

    let paints_now = harness.paints_of(1);
    harness.draw(&view);
    assert_eq!(harness.paints_of(1), paints_now, "and is reused again afterwards");
}

#[test]
fn nested_cached_view_is_reused_when_its_parent_rerenders() {
    let mut harness = Harness::new();
    let inner = Shown { entity: 2, side: 50.0, ..Shown::default() };
    let outer =
        Shown { entity: 1, side: 100.0, child: Some(Box::new(inner)), ..Shown::default() };
    harness.draw(&outer);
    assert_eq!((harness.renders_of(1), harness.renders_of(2)), (1, 1));

    harness.notify(1);
    harness.draw(&outer);
    assert!(harness.renders_of(1) > 1, "the notified outer view re-renders");
    assert_eq!(harness.renders_of(2), 1, "the inner view, untouched, is reused");
}

#[test]
fn nested_cached_view_follows_its_parent_when_the_parent_moves() {
    let mut harness = Harness::new();
    let inner = Shown { entity: 2, side: 30.0, effects: vec![20], ..Shown::default() };
    let outer = Shown { entity: 1, side: 60.0, child: Some(Box::new(inner)), ..Shown::default() };
    harness.draw(&outer);
    assert_eq!(harness.runs_of(20), 1);

    // Frame 2: three effects now precede the outer view, which is reused at a later position.
    harness.draw_after(&[10, 10, 10], &outer);
    assert_eq!(harness.renders_of(1), 1);

    // Frame 3: the outer view re-renders and reuses the inner one from frame 2's layout.
    harness.notify(1);
    let (prefix_before, inner_before) = (harness.runs_of(10), harness.runs_of(20));
    harness.draw_after(&[10, 10, 10], &outer);
    assert_eq!(harness.renders_of(1), 2);
    assert_eq!(harness.renders_of(2), 1);
    assert_eq!(harness.runs_of(20) - inner_before, 1, "the inner view's effect still runs once");
    assert_eq!(
        harness.runs_of(10) - prefix_before,
        3,
        "and the prefix effects run once each, not in the inner view's place"
    );
}

#[test]
fn cached_view_rerenders_when_a_global_it_read_changes() {
    let mut harness = Harness::new();
    harness.set_global(70, 1);
    let view = Shown { entity: 1, side: 100.0, globals: vec![70], ..Shown::default() };
    harness.draw(&view);
    assert_eq!((harness.renders_of(1), harness.seen), (1, 1));

    harness.draw(&view);
    assert_eq!(harness.renders_of(1), 1, "nothing changed, so the view is reused");

    harness.set_global(70, 2);
    harness.draw(&view);
    assert_eq!(harness.seen, 2, "the view shows the new global");

    let renders_now = harness.renders_of(1);
    harness.draw(&view);
    assert_eq!(harness.renders_of(1), renders_now, "and is reused again afterwards");
}

#[test]
fn cached_view_that_reads_the_mouse_follows_it() {
    let mut harness = Harness::new();
    let view = Shown { entity: 1, side: 100.0, reads_mouse: true, ..Shown::default() };
    harness.draw(&view);
    harness.draw(&view);
    assert_eq!(harness.renders_of(1), 1, "the mouse is still, so the view is reused");

    harness.window.mouse_position = Point { x: pixels(5.0), y: pixels(7.0) };
    harness.draw(&view);
    assert!(harness.renders_of(1) > 1, "the mouse moved, so the view is prepainted again");

    let before = harness.renders_of(1);
    harness.draw(&view);
    assert_eq!(harness.renders_of(1), before, "and is reused while it stays put");
}

#[test]
fn enclosing_view_depends_on_what_a_reused_view_read() {
    let mut harness = Harness::new();
    let inner = Shown { entity: 2, side: 50.0, reads: vec![50], ..Shown::default() };
    let outer =
        Shown { entity: 1, side: 100.0, child: Some(Box::new(inner)), ..Shown::default() };
    harness.draw(&outer);
    // The outer view is drawn anew and reuses the inner one, and depends on its reads still.
    harness.notify(1);
    harness.draw(&outer);
    assert_eq!((harness.renders_of(1), harness.renders_of(2)), (2, 1));
    harness.notify(50);
    harness.draw(&outer);
    assert_eq!((harness.renders_of(1), harness.renders_of(2)), (3, 2));
}

#[test]
fn every_reason_not_to_reuse_is_counted() {
    let mut harness = Harness::new();
    let view = Shown {
        entity: 1,
        side: 100.0,
        reads: vec![50],
        globals: vec![70],
        reads_mouse: true,
        ..Shown::default()
    };
    harness.draw(&view);
    harness.draw(&view);
    let larger = Shown { side: 101.0, ..view.clone() };
    harness.draw(&larger);
    harness.window.content_mask = ContentMask { bounds: square(999.0) };
    harness.draw(&larger);
    harness.window.text_style = TextStyle(2);
    harness.draw(&larger);
    harness.notify(1);
    harness.draw(&larger);
    harness.window.refreshing = true;
    harness.draw(&larger);
    harness.window.refreshing = false;
    harness.window.mouse_position = Point { x: pixels(1.0), y: pixels(1.0) };
    harness.draw(&larger);
    harness.notify(50);
    harness.draw(&larger);
    harness.set_global(70, 5);
    harness.draw(&larger);

    let counts: HashMap<&'static str, u64> =
        take_view_cache_stats(&mut harness.stats).into_iter().collect();
    assert_eq!(counts.len(), 10);
    assert!(counts.values().all(|count| *count == 1), "{counts:?}");
    assert_eq!(harness.renders_of(1), 9);
    let counts = take_view_cache_stats(&mut harness.stats);
    assert!(counts.iter().all(|(_, count)| *count == 0));
}

#[test]
fn nan_bounds_are_never_reused() {
    let mut harness = Harness::new();
    let view = Shown { entity: 1, side: f32::NAN, ..Shown::default() };
    harness.draw(&view);
    harness.draw(&view);
    assert_eq!(harness.renders_of(1), 2);
    // The two zeros are equal numbers, though.
    let flat = Shown { entity: 2, side: 0.0, ..Shown::default() };
    harness.draw(&flat);
    let flat = Shown { entity: 2, side: -0.0, ..Shown::default() };
    harness.draw(&flat);
    assert_eq!(harness.renders_of(2), 1);
}

#[test]
fn a_picking_inspector_turns_caching_off() {
    let mut harness = Harness::new();
    harness.window.inspector_picking = true;
    let handle: Entity<()> = Entity {
        entity: AnyEntity { entity_id: EntityId(1), entity_type: TypeId(7) },
        marker: PhantomData,
    };
    let mut element = AnyView::from(handle).cached(StyleRefinement(1));
    let layout = element.request_layout(TypeId(7), &mut harness.window);
    harness.window.leave_view();
    assert!(matches!(layout, ElementLayout::View(_)));
    let step = element.prepaint(
        TypeId(7),
        GlobalElementId(1),
        square(10.0),
        true,
        &mut harness.window,
        &mut harness.cx,
        &mut harness.stats,
    );
    harness.window.leave_view();
    assert!(matches!(step, ElementPrepaint::View));
    assert_eq!(harness.window.view_id, Some(EntityId(1)));
    let step = element.paint(
        TypeId(7),
        GlobalElementId(1),
        true,
        &mut harness.window,
        &mut harness.cx,
    );
    harness.window.leave_view();
    assert!(matches!(step, ElementPaint::View));
}

#[test]
fn globals_and_inputs_read_only_while_painting_count() {
    let mut harness = Harness::new();
    let view = Shown {
        entity: 1,
        side: 100.0,
        globals_while_painting: vec![70],
        reads_mouse_while_painting: true,
        ..Shown::default()
    };
    harness.draw(&view);
    harness.draw(&view);
    assert_eq!(harness.paints_of(1), 1, "nothing changed, so the view is reused");
    harness.set_global(70, 2);
    harness.draw(&view);
    assert_eq!(harness.paints_of(1), 2);
    harness.window.mouse_position = Point { x: pixels(5.0), y: pixels(7.0) };
    harness.draw(&view);
    assert_eq!(harness.paints_of(1), 3);
    harness.draw(&view);
    assert_eq!(harness.paints_of(1), 3, "and is reused while all stays put");
    let counts = take_view_cache_stats(&mut harness.stats);
    assert_eq!(counts.iter().map(|(_, count)| count).sum::<u64>(), 5);
    assert_eq!(counts[0], ("hit", 2));
}

#[test]
fn a_view_that_was_not_painted_keeps_its_stretch() {
    let mut harness = Harness::new();
    let view = Shown { entity: 1, side: 100.0, ..Shown::default() };
    harness.draw(&view);
    assert_eq!(harness.window.rendered.paint, vec![1]);

    // The view is prepainted but not painted, and something else is where it was.
    assert!(!harness.prepaint(&view).rendered);
    harness.window.next.paint.push(99);
    harness.window.next.paint.push(98);
    harness.window.finish_frame();

    let mut drawn = harness.prepaint(&view);
    assert!(!drawn.rendered);
    harness.paint(&view, &mut drawn);
    assert_eq!(harness.window.next.paint, vec![99]);
}

#[test]
fn a_view_that_was_rendered_for_its_layout_needs_no_state() {
    let mut harness = Harness::new();
    let view = Shown { entity: 1, side: 100.0, ..Shown::default() };
    harness.prepaint(&view);
    let handle: Entity<()> = Entity {
        entity: AnyEntity { entity_id: EntityId(1), entity_type: TypeId(7) },
        marker: PhantomData,
    };
    let mut element = ViewElement::new(AnyView::from(handle));
    let step = element.prepaint(
        TypeId(7),
        GlobalElementId(1),
        square(100.0),
        true,
        &mut harness.window,
        &mut harness.cx,
        &mut harness.stats,
    );
    assert!(matches!(step, ElementPrepaint::View));
}

struct Label;

impl RenderOnce for Label {}

#[test]
fn a_component_has_an_id_space_and_no_identity() {
    let mut harness = Harness::new();
    let name = TypeId(9);
    let inside = vec![ElementId::Name(name)];
    let mut element = ViewElement::new(Label);
    assert_eq!(element.id(), None);

    let layout = element.request_layout(name, &mut harness.window);
    assert!(matches!(layout, ElementLayout::Component(_)));
    assert_eq!(harness.window.element_ids, inside);
    harness.window.leave_id();

    let step = element.prepaint(
        name,
        GlobalElementId(1),
        square(10.0),
        true,
        &mut harness.window,
        &mut harness.cx,
        &mut harness.stats,
    );
    assert!(matches!(step, ElementPrepaint::Component));
    assert_eq!(harness.window.element_ids, inside);
    harness.window.leave_id();

    let id = GlobalElementId(1);
    let step = element.paint(name, id, true, &mut harness.window, &mut harness.cx);
    assert!(matches!(step, ElementPaint::Component));
    assert_eq!(harness.window.element_ids, inside);
    harness.window.leave_id();

    assert!(harness.window.element_ids.is_empty());
    assert!(harness.window.rendered_views.is_empty());
    assert!(harness.window.next.states.is_empty());
}

#[test]
fn handles_of_views() {
    let handle: Entity<u8> = Entity {
        entity: AnyEntity { entity_id: EntityId(3), entity_type: TypeId(7) },
        marker: PhantomData,
    };
    let view = AnyView::from(handle);
    assert_eq!(view.entity_id(), EntityId(3));
    assert_eq!(view.entity_type(), TypeId(7));
    assert!(view.downgrade().upgrade(Some(view.entity)) == Some(view));
    assert!(view.downgrade().upgrade(None).is_none());
    assert!(view.downcast::<u8>(TypeId(7)).is_ok());
    assert!(view.downcast::<u8>(TypeId(8)).err() == Some(view));
}
