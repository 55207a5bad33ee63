//! The commands of a frame.

use gpui_core::geometry::{Bounds, Point, Real32, Size};
use gpui_core::renderer::frame::{image_of_frame, ImageError, InvalidSize};
use gpui_core::renderer::gpu::{AtlasTextureId, AtlasTextureKind, Buffer, Command, Report};
use gpui_core::renderer::metal4_renderer::{
    path_rasterization_vertices, path_sprites, Hsla, Metal4Renderer, PaintSurface, Path,
    PathVertex, Scene,
};
use gpui_core::renderer::readback::{read_texture_to_image, NotAnImage};
use gpui_core::renderer::select::{choose_backend, metal4_available, Backend};
use gpui_core::renderer::setup::{choose_device, DeviceTraits};

fn real32(value: f32) -> Real32 {
    Real32 { bits: value.to_bits() }
}

fn empty_scene() -> Scene {
    Scene {
        shadows: 0,
        paths: Vec::new(),
        quads: 0,
        underlines: 0,
        monochrome_sprites: Vec::new(),
        polychrome_sprites: Vec::new(),
        surfaces: Vec::new(),
    }
}

fn path(vertices: usize) -> Path {
    let corner = |value: f32| Point { x: real32(value), y: real32(value) };
    Path {
        vertices: (0..vertices)
            .map(|i| PathVertex { xy_position: corner(i as f32), st_position: corner(0.0) })
            .collect(),
        color: Hsla { h: real32(0.0), s: real32(1.0), l: real32(0.5), a: real32(1.0) },
        clipped_bounds: Bounds {
            origin: corner(1.0),
            size: Size { width: real32(4.0), height: real32(4.0) },
        },
    }
}

fn tile(kind: AtlasTextureKind) -> AtlasTextureId {
    AtlasTextureId { index: 0, kind }
}

fn draws(commands: &[Command]) -> usize {
    commands.iter().filter(|command| matches!(command, Command::Draw { .. })).count()
}

const VIEWPORT: Size<i32> = Size { width: 200, height: 100 };

#[test]
fn setup_makes_everything_once() {
    let mut commands = Vec::new();
    let renderer = Metal4Renderer::new_headless(&mut commands);
    assert!(!renderer.has_layer);
    let queues = commands.iter().filter(|c| matches!(c, Command::CreateQueue)).count();
    let pipelines =
        commands.iter().filter(|c| matches!(c, Command::CompilePipeline { .. })).count();
    assert_eq!((queues, pipelines), (1, 8));
    let mut windowed = Vec::new();
    let renderer = Metal4Renderer::new(false, false, &mut windowed);
    assert!(renderer.has_layer && renderer.opaque);
    assert!(windowed.contains(&Command::Report(Report::NoLayerResidency)));
}

#[test]
fn a_renderer_without_layer_draws_nothing() {
    let mut commands = Vec::new();
    let mut renderer = Metal4Renderer::new_headless(&mut commands);
    commands.clear();
    renderer.draw(&empty_scene(), Some(VIEWPORT), &mut commands);
    assert_eq!(commands, vec![Command::Report(Report::HeadlessDraw)]);
    let mut renderer = Metal4Renderer::new(false, true, &mut commands);
    commands.clear();
    renderer.draw(&empty_scene(), None, &mut commands);
    assert_eq!(commands, vec![Command::Report(Report::NoDrawable)]);
    assert_eq!(renderer.frame_number, 0);
}

#[test]
fn images_need_a_size() {
    let mut commands = Vec::new();
    let mut renderer = Metal4Renderer::new_headless(&mut commands);
    commands.clear();
    let size = Size { width: 0, height: 10 };
    let result = renderer.render_scene_to_image(&empty_scene(), size, &mut commands);
    assert_eq!(result, Err(InvalidSize { width: 0, height: 10 }));
    assert!(commands.is_empty());
    let result = renderer.render_scene_to_image(&empty_scene(), VIEWPORT, &mut commands);
    assert_eq!(result, Ok(1));
    assert_eq!(draws(&commands), 0);
}

#[test]
fn every_kind_of_primitive_is_drawn() {
    let mut commands = Vec::new();
    let mut renderer = Metal4Renderer::new_headless(&mut commands);
    commands.clear();
    let scene = Scene {
        shadows: 1,
        paths: vec![path(3), path(6)],
        quads: 2,
        underlines: 1,
        monochrome_sprites: vec![tile(AtlasTextureKind::Monochrome)],
        polychrome_sprites: vec![tile(AtlasTextureKind::Polychrome)],
        surfaces: vec![],
    };
    renderer.render_scene_to_image(&scene, VIEWPORT, &mut commands).unwrap();
    // The paths take two draws: into their own texture, and from there.
    assert_eq!(draws(&commands), 7);
    assert_eq!(renderer.path_intermediate_size, Some((200, 100)));
    assert_eq!(path_rasterization_vertices(&scene.paths).len(), 9);
    assert_eq!(path_sprites(&scene.paths).len(), 2);
}

#[test]
fn buffers_grow_by_doubling() {
    let mut commands = Vec::new();
    let mut renderer = Metal4Renderer::new_headless(&mut commands);
    commands.clear();
    let before = renderer.quads_capacity;
    let scene = Scene { quads: before * 3, ..empty_scene() };
    renderer.render_scene_to_image(&scene, VIEWPORT, &mut commands).unwrap();
    assert_eq!(renderer.quads_capacity, before * 4);
    assert!(commands.contains(&Command::GrowBuffer {
        buffer: Buffer::Quads,
        capacity: before * 4
    }));
    commands.clear();
    let scene = Scene { quads: 1, ..empty_scene() };
    renderer.render_scene_to_image(&scene, VIEWPORT, &mut commands).unwrap();
    assert_eq!(renderer.quads_capacity, before * 4, "and never shrink");
}

#[test]
fn odd_surfaces_are_reported_and_left_out() {
    let mut commands = Vec::new();
    let mut renderer = Metal4Renderer::new_headless(&mut commands);
    commands.clear();
    let odd = PaintSurface { pixel_format: 1, width: 4, height: 4, luma: true, chroma: true };
    let scene = Scene { surfaces: vec![odd], ..empty_scene() };
    renderer.render_scene_to_image(&scene, VIEWPORT, &mut commands).unwrap();
    assert_eq!(draws(&commands), 0);
    assert!(commands.contains(&Command::Report(Report::UnsupportedSurface)));
}

#[test]
fn images_have_their_channels_in_order() {
    let image = read_texture_to_image(1, 2, vec![1, 2, 3, 4, 5, 6, 7, 8]).unwrap();
    assert_eq!(image.dimensions(), (1, 2));
    assert_eq!(image.into_raw(), vec![3, 2, 1, 4, 7, 6, 5, 8]);
    assert_eq!(read_texture_to_image(2, 2, vec![0; 8]).err(), Some(NotAnImage));
}

#[test]
fn an_image_needs_a_finished_frame() {
    let image = image_of_frame(true, 1, 1, vec![1, 2, 3, 4]).unwrap();
    assert_eq!(image.dimensions(), (1, 1));
    assert_eq!(image.into_raw(), vec![3, 2, 1, 4]);
    assert_eq!(image_of_frame(false, 1, 1, vec![0; 4]).err(), Some(ImageError::TimedOut));
    assert_eq!(image_of_frame(true, 2, 1, vec![0; 4]).err(), Some(ImageError::NotAnImage));
}

#[test]
fn the_new_backend_has_to_be_asked_for() {
    assert!(metal4_available(true, &vec![false, true]));
    assert!(!metal4_available(true, &vec![false]));
    assert!(!metal4_available(false, &vec![true]));
    assert_eq!(choose_backend(true, Some("metal4")), Backend::Metal4);
    assert_eq!(choose_backend(true, Some("metal3")), Backend::Metal3);
    assert_eq!(choose_backend(true, None), Backend::Metal3);
    assert_eq!(choose_backend(false, Some("metal4")), Backend::Metal3);
    assert!(Backend::Metal3.renders_to_image() && !Backend::Metal4.renders_to_image());
}

#[test]
fn the_first_device_of_the_best_kind_is_chosen() {
    let device = |removable: bool, low_power: bool| DeviceTraits { removable, low_power };
    assert_eq!(choose_device(&vec![]), None);
    let devices = vec![
        device(true, true),
        device(false, false),
        device(false, true),
        device(false, true),
    ];
    assert_eq!(choose_device(&devices), Some(2));
    assert_eq!(choose_device(&vec![device(true, false)]), Some(0));
}

#[test]
fn settings_of_the_layer() {
    let mut commands = Vec::new();
    let mut renderer = Metal4Renderer::new(false, true, &mut commands);
    assert_eq!(renderer.update_transparency(true), Some(false));
    assert!(!renderer.opaque);
    assert_eq!(renderer.set_presents_with_transaction(true), Some(true));
    let mut headless = Metal4Renderer::new_headless(&mut commands);
    assert_eq!(headless.update_transparency(true), None);
    assert_eq!(headless.set_presents_with_transaction(true), None);
}
