//! Layout nodes are kept from frame to frame.

use gpui_core::geometry::{AvailableSpace, Bounds, Edges, Pixels, Point, Real32, Size};
use gpui_core::layout::bounds::Arithmetic;
use gpui_core::layout::compute::snap_measured_size_to_device_pixels;
use gpui_core::layout::engine::{LayoutId, TaffyLayoutEngine};
use gpui_core::layout::flags::env_flag;
use gpui_core::layout::key::{structural_key, style_fingerprint};
use gpui_core::layout::stats::{
    enable_layout_stats, take_layout_calls, take_layout_stats, take_reuse_stats,
    take_taffy_cache_stats, LayoutStats,
};
use gpui_core::layout::tree::{MeasureArgs, NodeContext};
use gpui_core::layout::verify::verify_report;
use gpui_core::style::{
    border_widths_to_taffy, to_grid_repeat, AbsoluteLength, DefiniteLength, Display, FlexDirection,
    FlexWrap, GridTemplate, GridTemplateMinSize, Length, Overflow, Position, Style, TaffyLength,
    TaffyStyle,
};

fn real32(value: f32) -> Real32 {
    Real32 { bits: value.to_bits() }
}

fn number(value: Real32) -> f32 {
    f32::from_bits(value.bits)
}

fn pixels(value: f32) -> Pixels {
    Pixels(real32(value))
}

fn absolute(value: f32) -> AbsoluteLength {
    AbsoluteLength::Pixels(pixels(value))
}

fn definite(value: f32) -> Length {
    Length::Definite(DefiniteLength::Absolute(absolute(value)))
}

/// The length in pixels, with a root font size of 16 pixels.
fn in_pixels(length: AbsoluteLength) -> f32 {
    match length {
        AbsoluteLength::Pixels(length) => number(length.0),
        AbsoluteLength::Rems(rems) => number(rems) * 16.0,
    }
}

fn snap(length: AbsoluteLength) -> Real32 {
    real32(in_pixels(length).round())
}

/// A border that was asked for is at least one device pixel wide.
fn snap_stroke(length: AbsoluteLength) -> Real32 {
    let width = in_pixels(length);
    real32(if width == 0.0 { 0.0 } else { width.round().max(1.0) })
}

fn edges<T: Copy>(value: T) -> Edges<T> {
    Edges { top: value, right: value, bottom: value, left: value }
}

fn style(width: f32, height: f32) -> Style {
    Style {
        display: Display::Flex,
        overflow: Point { x: Overflow::Visible, y: Overflow::Visible },
        scrollbar_width: absolute(0.0),
        position: Position::Relative,
        inset: edges(Length::Auto),
        size: Size { width: definite(width), height: definite(height) },
        min_size: Size { width: Length::Auto, height: Length::Auto },
        max_size: Size { width: Length::Auto, height: Length::Auto },
        aspect_ratio: None,
        margin: edges(definite(0.0)),
        padding: edges(DefiniteLength::Absolute(absolute(0.0))),
        border_widths: edges(absolute(0.0)),
        align_items: None,
        align_self: None,
        align_content: None,
        justify_content: None,
        gap: Size {
            width: DefiniteLength::Absolute(absolute(0.0)),
            height: DefiniteLength::Absolute(absolute(0.0)),
        },
        flex_direction: FlexDirection::Row,
        flex_wrap: FlexWrap::NoWrap,
        flex_basis: Length::Auto,
        flex_grow: real32(0.0),
        flex_shrink: real32(0.0),
        grid_rows: None,
        grid_cols: None,
        grid_location: None,
    }
}

fn automatic() -> Style {
    Style { size: Size { width: Length::Auto, height: Length::Auto }, ..style(0.0, 0.0) }
}

fn request(engine: &mut TaffyLayoutEngine, style: &Style, children: &[LayoutId]) -> LayoutId {
    engine.request_layout(style, &snap, &snap_stroke, &children.to_vec())
}

fn dimension(length: TaffyLength) -> taffy::style::Dimension {
    match length {
        TaffyLength::Length(bits) => taffy::style::Dimension::length(f32::from_bits(bits)),
        TaffyLength::Percent(bits) => taffy::style::Dimension::percent(f32::from_bits(bits)),
        _ => taffy::style::Dimension::auto(),
    }
}

/// As much of a style as these tests lay out.
fn solver_style(style: &TaffyStyle) -> taffy::Style {
    taffy::Style {
        size: taffy::Size {
            width: dimension(style.size.width),
            height: dimension(style.size.height),
        },
        flex_direction: match style.flex_direction {
            FlexDirection::Column => taffy::FlexDirection::Column,
            _ => taffy::FlexDirection::Row,
        },
        ..Default::default()
    }
}

fn solve(engine: &mut TaffyLayoutEngine, id: LayoutId, stats: &mut LayoutStats) {
    for (id, style) in engine.take_unstyled() {
        engine.taffy.set_style(taffy::NodeId::from(id.0), solver_style(&style)).unwrap();
    }
    let run = engine.compute_layout(id, AvailableSpace::min_size(), &|length: Pixels| length, stats);
    assert_eq!(run.id, id);
    engine
        .taffy
        .compute_layout_with_measure(
            taffy::NodeId::from(id.0),
            taffy::Size {
                width: taffy::AvailableSpace::MinContent,
                height: taffy::AvailableSpace::MinContent,
            },
            |known, _, _, context: Option<&mut NodeContext>, _| {
                if let Some(context) = context {
                    context.record_measure(MeasureArgs {
                        known_dimensions: Size {
                            width: known.width.map(real32),
                            height: known.height.map(real32),
                        },
                        available_space: AvailableSpace::min_size(),
                    });
                }
                taffy::Size { width: 7.0, height: 5.0 }
            },
        )
        .unwrap();
    engine.finish_layout(id, run.counts, 10, stats);
}

fn bounds(engine: &mut TaffyLayoutEngine, id: LayoutId) -> [f32; 4] {
    let bounds: Bounds<Pixels> = engine.layout_bounds(
        id,
        &|tree: &taffy::TaffyTree<NodeContext>, node: u64| {
            let layout = tree.layout(taffy::NodeId::from(node)).unwrap();
            (
                Point { x: real32(layout.location.x), y: real32(layout.location.y) },
                Size { width: real32(layout.size.width), height: real32(layout.size.height) },
            )
        },
        &Arithmetic {
            add: |a: Real32, b: Real32| real32(number(a) + number(b)),
            subtract: |a: Real32, b: Real32| real32(number(a) - number(b)),
            round: |a: Real32| real32(number(a).round()),
            unscale: Pixels,
        },
    );
    [
        number(bounds.origin.x.0),
        number(bounds.origin.y.0),
        number(bounds.size.width.0),
        number(bounds.size.height.0),
    ]
}

#[test]
fn border_widths_to_taffy_use_stroke_snapping() {
    let border_widths = Edges {
        top: absolute(0.0),
        right: absolute(0.4),
        bottom: absolute(0.5),
        left: absolute(1.6),
    };
    let taffy_border = border_widths_to_taffy(&border_widths, &snap_stroke);

    assert_eq!(taffy_border.top, TaffyLength::Length(0.0f32.to_bits()));
    assert_eq!(taffy_border.right, TaffyLength::Length(1.0f32.to_bits()));
    assert_eq!(taffy_border.bottom, TaffyLength::Length(1.0f32.to_bits()));
    assert_eq!(taffy_border.left, TaffyLength::Length(2.0f32.to_bits()));
}

#[test]
fn an_unchanged_frame_keeps_all_its_nodes() {
    let mut engine = TaffyLayoutEngine::new(None, None);
    assert!(engine.retain && !engine.verify);
    let mut first = None;
    for _ in 0..3 {
        let a = request(&mut engine, &style(10.0, 20.0), &[]);
        let b = request(&mut engine, &style(10.0, 20.0), &[]);
        let root = request(&mut engine, &style(50.0, 50.0), &[a, b]);
        assert_ne!(a, b, "equal nodes of one frame are two nodes");
        let ids = (a, b, root);
        assert_eq!(*first.get_or_insert(ids), ids);
        engine.clear();
        assert_eq!(engine.taffy.total_node_count(), 3);
    }
    assert_eq!(engine.reuse_counts, (3, 6));
}

#[test]
fn distinct_nodes_are_kept_as_they_are() {
    let mut engine = TaffyLayoutEngine::new(None, None);
    let mut first = None;
    for _ in 0..3 {
        let a = request(&mut engine, &style(10.0, 20.0), &[]);
        let b = request(&mut engine, &style(11.0, 20.0), &[]);
        let root = request(&mut engine, &style(50.0, 50.0), &[a, b]);
        let ids = (a, b, root);
        assert_eq!(*first.get_or_insert(ids), ids);
        assert_eq!(engine.taffy.children(taffy::NodeId::from(root.0)).unwrap().len(), 2);
        engine.clear();
    }
    assert_eq!(engine.reuse_counts, (3, 6));
}

#[test]
fn a_changed_node_is_made_anew_with_its_ancestors() {
    let mut engine = TaffyLayoutEngine::new(None, None);
    let a = request(&mut engine, &style(10.0, 20.0), &[]);
    let b = request(&mut engine, &style(11.0, 20.0), &[]);
    let root = request(&mut engine, &style(50.0, 50.0), &[a, b]);
    engine.clear();

    let a2 = request(&mut engine, &style(10.0, 20.0), &[]);
    let b2 = request(&mut engine, &style(12.0, 20.0), &[]);
    let root2 = request(&mut engine, &style(50.0, 50.0), &[a2, b2]);
    assert_eq!(a2, a);
    assert_ne!(b2, b);
    assert_ne!(root2, root);
    assert_eq!(engine.reuse_counts, (5, 1));
    let parent = engine.taffy.parent(taffy::NodeId::from(a.0)).map(u64::from);
    assert_eq!(parent, Some(root2.0));

    // What was not asked for again is gone after the frame, and the rest is whole.
    engine.clear();
    assert_eq!(engine.taffy.total_node_count(), 3);
    let children: Vec<u64> = engine
        .taffy
        .children(taffy::NodeId::from(root2.0))
        .unwrap()
        .into_iter()
        .map(u64::from)
        .collect();
    assert_eq!(children, vec![a2.0, b2.0]);
    engine.clear();
    assert_eq!(engine.taffy.total_node_count(), 0);
}

#[test]
fn nodes_are_adopted_once_in_a_frame() {
    let mut engine = TaffyLayoutEngine::new(None, None);
    let a = request(&mut engine, &style(10.0, 20.0), &[]);
    let b = request(&mut engine, &style(11.0, 20.0), &[]);
    assert!(engine.can_adopt(&vec![a, b]));
    assert!(!engine.can_adopt(&vec![a, a]), "a child is listed once");
    let root = request(&mut engine, &style(50.0, 50.0), &[a]);
    assert!(!engine.can_adopt(&vec![a]), "the node has a parent");
    assert!(engine.can_adopt(&vec![b, root]));

    engine.clear();
    assert!(engine.has_node(a) && !engine.is_current_node(a));
    assert!(!engine.can_adopt(&vec![a]), "the node was not asked for in this frame");
    assert_eq!(request(&mut engine, &style(10.0, 20.0), &[]), a);
    assert!(engine.is_current_node(a));
    assert!(engine.can_adopt(&vec![a]), "the parent is of the frame before");
    let other = request(&mut engine, &style(60.0, 60.0), &[a]);
    let parent = engine.taffy.parent(taffy::NodeId::from(a.0));
    assert_eq!(parent, Some(taffy::NodeId::from(other.0)));

    engine.clear();
    assert!(engine.has_node(a) && engine.has_node(other));
    assert!(!engine.has_node(b) && !engine.has_node(root));
}

#[test]
fn nothing_is_kept_where_keeping_is_off() {
    let mut engine = TaffyLayoutEngine::new(Some("0"), Some("1"));
    assert!(!engine.retain && engine.verify);
    let a = request(&mut engine, &style(10.0, 20.0), &[]);
    request(&mut engine, &style(50.0, 50.0), &[a]);
    engine.clear();
    assert_eq!(engine.taffy.total_node_count(), 0);
    request(&mut engine, &style(10.0, 20.0), &[]);
    assert_eq!(engine.reuse_counts, (3, 0));
    assert!(engine.pool.is_empty());
}

#[test]
fn measured_leaves_are_kept_by_their_content() {
    let mut engine = TaffyLayoutEngine::new(None, None);
    let mut stats = LayoutStats::new();
    let leaf = engine.request_measured_layout_keyed(
        &automatic(),
        &snap,
        &snap_stroke,
        Some(40),
        100,
    );
    let other = engine.request_measured_layout(&automatic(), &snap, &snap_stroke, 101);
    let root = request(&mut engine, &automatic(), &[leaf, other]);
    solve(&mut engine, root, &mut stats);
    engine.clear();

    let leaf2 = engine.request_measured_layout_keyed(
        &automatic(),
        &snap,
        &snap_stroke,
        Some(40),
        200,
    );
    assert_eq!(leaf2, leaf);
    let other2 = engine.request_measured_layout(&automatic(), &snap, &snap_stroke, 201);
    assert_ne!(other2, other, "a leaf without a content key is not kept");
    let changed = engine.request_measured_layout_keyed(
        &automatic(),
        &snap,
        &snap_stroke,
        Some(41),
        202,
    );
    assert_ne!(changed, leaf, "nor one whose content changed");

    // The kept leaf is measured again as it was last, by the function of this frame.
    let run = engine.compute_layout(
        leaf2,
        AvailableSpace::min_size(),
        &|length: Pixels| length,
        &mut stats,
    );
    assert_eq!(run.remeasure.len(), 1);
    assert_eq!(run.remeasure[0].id, leaf);
    assert_eq!(run.remeasure[0].measure, 200);
    let (_, space) = run.remeasure[0]
        .args
        .in_pixels(&|length: Real32| Pixels(length), &|length: Pixels| length);
    assert!(space.width == AvailableSpace::MinContent);
    assert!(engine.pending_remeasure.is_empty());
}

/// Puts what waits under one key under another, as if the two were the same.
fn collide(engine: &mut TaffyLayoutEngine, from: u64, to: u64) {
    let bucket = engine.pool.remove(&from).unwrap();
    engine.pool.insert(to, bucket);
    engine.pool_keys.retain(|key| *key != from);
    engine.pool_keys.push(to);
}

#[test]
fn contents_are_compared_in_full() {
    let mut engine = TaffyLayoutEngine::new(None, None);
    let leaf = engine.request_measured_layout_keyed(&automatic(), &snap, &snap_stroke, Some(1), 5);
    engine.clear();
    let style = automatic().to_taffy(&snap, &snap_stroke);
    let key = |content: u64| structural_key(&style, &vec![], content);
    collide(&mut engine, key(1), key(2));
    let other = engine.request_measured_layout_keyed(&automatic(), &snap, &snap_stroke, Some(2), 6);
    assert_ne!(other, leaf, "the same key does not make the same content");
    collide(&mut engine, key(2), key(1));
    let again = engine.request_measured_layout_keyed(&automatic(), &snap, &snap_stroke, Some(1), 7);
    assert_eq!(again, leaf);
}

#[test]
fn a_node_that_lost_a_child_is_not_kept() {
    let mut engine = TaffyLayoutEngine::new(None, None);
    let child = request(&mut engine, &style(1.0, 1.0), &[]);
    let parent = request(&mut engine, &style(2.0, 2.0), &[child]);
    engine.clear();
    assert_eq!(request(&mut engine, &style(1.0, 1.0), &[]), child);
    request(&mut engine, &style(3.0, 3.0), &[child]);
    assert!(engine.cut.contains(&parent.0));
    let own = style(2.0, 2.0).to_taffy(&snap, &snap_stroke);
    let (with_child, without) =
        (structural_key(&own, &vec![child.0], 0), structural_key(&own, &vec![], 0));
    collide(&mut engine, with_child, without);
    assert_ne!(request(&mut engine, &style(2.0, 2.0), &[]), parent);
    engine.clear();
    assert!(engine.cut.is_empty() && !engine.has_node(parent));
}

#[test]
fn a_second_request_is_another_node() {
    let mut engine = TaffyLayoutEngine::new(None, None);
    let node = request(&mut engine, &style(1.0, 1.0), &[]);
    engine.clear();
    assert_eq!(request(&mut engine, &style(1.0, 1.0), &[]), node);
    assert_ne!(request(&mut engine, &style(1.0, 1.0), &[]), node);
}

#[test]
fn edges_at_one_place_close() {
    let mut engine = TaffyLayoutEngine::new(None, None);
    let half = Length::Definite(DefiniteLength::Fraction(real32(0.5)));
    let half_wide = Style { size: Size { width: half, height: definite(4.0) }, ..style(0.0, 0.0) };
    let a = request(&mut engine, &half_wide, &[]);
    let b = request(&mut engine, &half_wide, &[]);
    let root = request(&mut engine, &style(25.0, 4.0), &[a, b]);
    solve(&mut engine, root, &mut LayoutStats::new());
    // Both meet at twelve and a half, which is rounded once and for all.
    assert_eq!(bounds(&mut engine, a), [0.0, 0.0, 13.0, 4.0]);
    assert_eq!(bounds(&mut engine, b), [13.0, 0.0, 12.0, 4.0]);
}

#[test]
fn a_measured_leaf_is_not_taken_for_a_plain_one() {
    let mut engine = TaffyLayoutEngine::new(None, None);
    let plain = request(&mut engine, &automatic(), &[]);
    engine.clear();
    let leaf = engine.request_measured_layout_keyed(&automatic(), &snap, &snap_stroke, Some(0), 5);
    assert_ne!(leaf, plain);
    let again = request(&mut engine, &automatic(), &[]);
    assert_eq!(again, plain);
}

#[test]
fn bounds_are_known_until_the_next_layout() {
    let mut engine = TaffyLayoutEngine::new(None, None);
    let mut stats = LayoutStats::new();
    enable_layout_stats(&mut stats, true);
    let a = request(&mut engine, &style(10.0, 20.0), &[]);
    let b = request(&mut engine, &style(30.0, 20.0), &[]);
    let row = request(&mut engine, &automatic(), &[a, b]);
    let column = Style { flex_direction: FlexDirection::Column, ..automatic() };
    let top = request(&mut engine, &style(5.0, 8.0), &[]);
    let root = request(&mut engine, &column, &[top, row]);
    solve(&mut engine, root, &mut stats);
    assert_eq!(bounds(&mut engine, b), [10.0, 8.0, 30.0, 20.0]);
    // The bounds of the nodes above were found on the way, and of no others.
    let mut known: Vec<u64> = engine.absolute_layout_bounds.keys().copied().collect();
    known.sort();
    let mut expected = vec![b.0, row.0, root.0];
    expected.sort();
    assert_eq!(known, expected);
    assert_eq!(bounds(&mut engine, a), [0.0, 8.0, 10.0, 20.0]);
    assert_eq!(bounds(&mut engine, root), [0.0, 0.0, 40.0, 28.0]);

    // A second layout of the row forgets what is at or below it.
    solve(&mut engine, row, &mut stats);
    assert_eq!(engine.absolute_layout_bounds.len(), 4, "the row was not laid out by itself before");
    solve(&mut engine, row, &mut stats);
    let known: Vec<u64> = engine.absolute_layout_bounds.keys().copied().collect();
    assert_eq!(known, vec![root.0]);

    assert_eq!(take_layout_stats(&mut stats)[..3], [3, 15, 30]);
    assert_eq!(take_layout_stats(&mut stats), [0; 5]);
    assert_eq!(take_layout_calls(&mut stats), vec![(10, 5), (10, 3), (10, 3)]);
    assert!(take_layout_calls(&mut stats).is_empty());
    assert_eq!(take_reuse_stats(&mut stats), (5, 0));
    assert_eq!(take_reuse_stats(&mut stats), (0, 0));
    assert_eq!(take_taffy_cache_stats(&mut stats), (0, 0));
    stats.record_measure(true, 4);
    assert_eq!(take_layout_stats(&mut stats), [0, 0, 0, 1, 4]);
    stats.record_measure(false, 4);
    assert_eq!(take_layout_stats(&mut stats), [0; 5]);

    // What is turned on or off in the course of a layout holds from the next one on.
    let scale = |length: Pixels| length;
    let run = engine.compute_layout(root, AvailableSpace::min_size(), &scale, &mut stats);
    enable_layout_stats(&mut stats, false);
    stats.record_measure(run.counts, 4);
    engine.finish_layout(root, run.counts, 6, &mut stats);
    assert_eq!(take_layout_stats(&mut stats), [1, 5, 6, 1, 4]);
    let run = engine.compute_layout(root, AvailableSpace::min_size(), &scale, &mut stats);
    enable_layout_stats(&mut stats, true);
    engine.finish_layout(root, run.counts, 6, &mut stats);
    assert_eq!(take_layout_stats(&mut stats), [0; 5]);
}

#[test]
fn walks_over_a_tree() {
    let mut engine = TaffyLayoutEngine::new(None, None);
    let a = request(&mut engine, &style(1.0, 1.0), &[]);
    let b = request(&mut engine, &style(2.0, 1.0), &[]);
    let c = request(&mut engine, &style(3.0, 1.0), &[b]);
    let root = request(&mut engine, &style(4.0, 1.0), &[a, c]);
    assert_eq!(engine.count_all_children(root), 3);
    assert_eq!(engine.count_all_children(a), 0);
    assert_eq!(engine.max_depth(0, root), 3);
    assert_eq!(engine.max_depth(2, a), 3);
    assert_eq!(engine.get_edges(root), vec![(root, a), (root, c), (c, b)]);
    assert_eq!(engine.walk(root.0), vec![root.0, c.0, b.0, a.0]);
}

#[test]
fn automatic_dimensions_of_a_root_fill_the_window() {
    let mut engine = TaffyLayoutEngine::new(None, None);
    let window = Size { width: pixels(640.4), height: pixels(480.0) };
    let to_device = |length: Pixels| real32(number(length.0).round());
    let fixed = request(&mut engine, &style(10.0, 20.0), &[]);
    engine.take_unstyled();
    engine.stretch_auto_size_to_fill(fixed, window, &to_device);
    assert!(engine.take_unstyled().is_empty());

    let half = Style { size: Size { width: Length::Auto, height: definite(20.0) }, ..automatic() };
    let root = request(&mut engine, &half, &[]);
    engine.take_unstyled();
    engine.stretch_auto_size_to_fill(root, window, &to_device);
    let styled = engine.take_unstyled();
    assert_eq!(styled.len(), 1);
    assert_eq!(styled[0].0, root);
    assert_eq!(styled[0].1.size.width, TaffyLength::Length(640.0f32.to_bits()));
    assert_eq!(styled[0].1.size.height, TaffyLength::Length(20.0f32.to_bits()));
}

#[test]
fn keys_tell_requests_apart() {
    let plain = style(10.0, 20.0).to_taffy(&snap, &snap_stroke);
    let wide = style(11.0, 20.0).to_taffy(&snap, &snap_stroke);
    let children = vec![3u64, 4];
    assert_eq!(style_fingerprint(&plain), style_fingerprint(&plain));
    assert_ne!(style_fingerprint(&plain), style_fingerprint(&wide));
    let key = structural_key(&plain, &children, 0);
    assert_eq!(key, structural_key(&plain, &children, 0));
    assert_ne!(key, structural_key(&wide, &children, 0));
    assert_ne!(key, structural_key(&plain, &vec![4, 3], 0));
    assert_ne!(key, structural_key(&plain, &children, 2));
    assert_eq!(key % 2, 1);
    assert!(plain.is_same(&plain) && !plain.is_same(&wide));
}

#[test]
fn measured_sizes_are_whole_and_not_negative() {
    let size = Size { width: pixels(3.2), height: pixels(-4.0) };
    let up = |length: Pixels| real32(number(length.0).ceil());
    let snapped = snap_measured_size_to_device_pixels(size, &up);
    assert_eq!((number(snapped.width), number(snapped.height)), (4.0, 0.0));
    let odd = Size { width: pixels(f32::NAN), height: pixels(0.0) };
    let snapped = snap_measured_size_to_device_pixels(odd, &up);
    assert_eq!((number(snapped.width), number(snapped.height)), (0.0, 0.0));
}

#[test]
fn available_space_converts_only_pixels() {
    let space = Size {
        width: AvailableSpace::from(pixels(10.0)),
        height: AvailableSpace::MaxContent,
    };
    let scaled = space.convert(&|length: Pixels| pixels(number(length.0) * 1.5));
    assert!(scaled.width == AvailableSpace::Definite(pixels(15.0)));
    assert!(scaled.height == AvailableSpace::MaxContent);
    assert!(AvailableSpace::default() == AvailableSpace::MinContent);
    let size: Size<AvailableSpace> = Size { width: pixels(1.0), height: pixels(2.0) }.into();
    assert!(size.height == AvailableSpace::Definite(pixels(2.0)));
}

#[test]
fn switches_are_off_by_zero_and_false_only() {
    assert!(env_flag(None, true));
    assert!(!env_flag(None, false));
    for off in ["0", "false", "FALSE", "False"] {
        assert!(!env_flag(Some(off), true));
    }
    for on in ["1", "", "no", "00", "falsey"] {
        assert!(env_flag(Some(on), false));
    }
}

#[test]
fn all_differences_are_listed() {
    let report = verify_report(&vec![false, true, true, false, true, true, true, true]);
    assert_eq!((report.total, report.bad), (8, 6));
    assert_eq!(report.listed, vec![1, 2, 4, 5, 6, 7]);
    let report = verify_report(&vec![false; 3]);
    assert_eq!((report.total, report.bad, report.listed.len()), (3, 0, 0));
}

#[test]
fn grid_templates_repeat_their_tracks() {
    assert!(to_grid_repeat(None).is_none());
    let template = GridTemplate { repeat: 3, min_size: GridTemplateMinSize::MinContent };
    let tracks = to_grid_repeat(Some(template)).unwrap();
    assert_eq!(tracks.repeat, 3);
    assert_eq!(tracks.min, TaffyLength::MinContent);
    assert_eq!(tracks.max, TaffyLength::Fr(1.0f32.to_bits()));
}
