//! What holds of the order of the commands of a frame, and of frames among each other.

use crate::geometry::Size;
use crate::renderer::gpu::{
    within_table, AtlasTextureId, Buffer, Command, Pipeline, Plane, Report, Target, Texture,
};
use crate::renderer::metal4_renderer::{
    atlas_plan, doubled, each_surface_plan, growth, instance_draw_plan, instances_plan, is_drawn,
    law_grown_buffer_is_large_enough, mixed, path_draw_plan, path_sprite_draw_plan,
    path_sprites_plan, path_textures_plan, registration, removals, sprite_draw_plan, sprites_plan,
    surface_plan, surface_textures, surfaces_plan, Metal4Renderer, PaintSurface, Scene,
};
use crate::renderer::residency::capacity_of;
use vstd::arithmetic::power2::{lemma2_to64, lemma_pow2_pos, lemma_pow2_unfold, pow2};
use vstd::prelude::*;

verus! {

/// The place of a pipeline in a frame.
pub open spec fn rank(pipeline: Pipeline) -> int {
    match pipeline {
        Pipeline::PathRasterization => 0,
        Pipeline::Shadow => 1,
        Pipeline::PathSprite => 2,
        Pipeline::Quad => 3,
        Pipeline::Underline => 4,
        Pipeline::MonochromeSprite => 5,
        Pipeline::PolychromeSprite => 6,
        Pipeline::Surface => 7,
    }
}

/// The pipelines that a list of commands uses come in the order of their places.
pub open spec fn in_order(plan: Seq<Command>) -> bool {
    forall|i: int, j: int|
        #![trigger plan[i], plan[j]]
        0 <= i < j < plan.len() ==> (plan[i] matches Command::UsePipeline(a) ==> (
        plan[j] matches Command::UsePipeline(b) ==> rank(a) <= rank(b)))
}

/// Every binding of a list stays within the argument table.
pub open spec fn binds_within_table(plan: Seq<Command>) -> bool {
    forall|i: int| 0 <= i < plan.len() ==> within_table(#[trigger] plan[i])
}

// ---- the parts of a frame ----------------------------------------------------------------------

/// A list uses pipelines of some places only, in order, and its bindings stay within the argument
/// table.
spec fn tidy(plan: Seq<Command>, low: int, high: int) -> bool {
    &&& in_order(plan)
    &&& forall|i: int|
        0 <= i < plan.len() ==> (#[trigger] plan[i] matches Command::UsePipeline(pipeline) ==> low
            <= rank(pipeline) <= high)
    &&& binds_within_table(plan)
}

proof fn lemma_add(a: Seq<Command>, b: Seq<Command>, low: int, middle: int, high: int)
    requires
        tidy(a, low, middle),
        tidy(b, middle, high),
        low <= middle <= high,
    ensures
        tidy(a + b, low, high),
{
    let plan = a + b;
    assert forall|i: int| 0 <= i < plan.len() implies (
    #[trigger] plan[i] matches Command::UsePipeline(pipeline) ==> low <= rank(pipeline) <= high) by {
        if i < a.len() {
            assert(plan[i] == a[i]);
        } else {
            assert(plan[i] == b[i - a.len()]);
        }
    }
    assert forall|i: int| 0 <= i < plan.len() implies within_table(#[trigger] plan[i]) by {
        if i < a.len() {
            assert(plan[i] == a[i]);
        } else {
            assert(plan[i] == b[i - a.len()]);
        }
    }
    assert forall|i: int, j: int|
        #![trigger plan[i], plan[j]]
        0 <= i < j < plan.len() implies (plan[i] matches Command::UsePipeline(p) ==> (
    plan[j] matches Command::UsePipeline(q) ==> rank(p) <= rank(q))) by {
        if j < a.len() {
            assert(plan[i] == a[i] && plan[j] == a[j]);
        } else if i >= a.len() {
            assert(plan[i] == b[i - a.len()] && plan[j] == b[j - a.len()]);
        } else {
            assert(plan[i] == a[i] && plan[j] == b[j - a.len()]);
        }
    }
}

proof fn lemma_instances(
    buffer: Buffer,
    pipeline: Pipeline,
    capacity: usize,
    count: usize,
    viewport: Size<i32>,
)
    ensures
        tidy(
            instances_plan(buffer, pipeline, capacity, count, viewport),
            rank(pipeline),
            rank(pipeline),
        ),
{
    let place = rank(pipeline);
    let first = growth(buffer, capacity, count as int);
    let rest = instance_draw_plan(buffer, pipeline, count, viewport);
    assert(tidy(first, place, place));
    assert(tidy(rest, place, place));
    lemma_add(first, rest, place, place, place);
}

proof fn lemma_sprites(
    buffer: Buffer,
    pipeline: Pipeline,
    capacity: usize,
    resident: Option<AtlasTextureId>,
    sprites: Seq<AtlasTextureId>,
    viewport: Size<i32>,
)
    ensures
        tidy(
            sprites_plan(buffer, pipeline, capacity, resident, sprites, viewport),
            rank(pipeline),
            rank(pipeline),
        ),
{
    let place = rank(pipeline);
    let first = atlas_plan(resident, sprites);
    let second = growth(buffer, capacity, sprites.len() as int);
    let third = sprite_draw_plan(
        buffer,
        pipeline,
        Texture::Atlas(sprites[0]),
        sprites.len() as usize,
        viewport,
    );
    assert(tidy(first, place, place));
    assert(tidy(second, place, place));
    assert(tidy(third, place, place));
    lemma_add(first, second, place, place, place);
    lemma_add(first + second, third, place, place, place);
}

proof fn lemma_opening(renderer: Metal4Renderer, scene: Scene, viewport: Size<i32>)
    ensures
        tidy(renderer.opening_plan(scene, viewport), 0, 0),
{
    let begin = renderer.begin_plan();
    let paths = renderer.paths_to_plan(scene.paths@, viewport);
    let vertices = crate::renderer::metal4_renderer::all_vertices(scene.paths@).len() as usize;
    let textures = path_textures_plan(renderer.path_intermediate_size, viewport);
    let first = growth(Buffer::PathVertices, renderer.path_vertices_capacity, vertices as int);
    let rest = path_draw_plan(vertices, viewport);
    assert(tidy(begin, 0, 0));
    assert(tidy(textures, 0, 0));
    assert(tidy(first, 0, 0));
    assert(tidy(rest, 0, 0));
    assert(tidy(seq![], 0, 0));
    lemma_add(first, rest, 0, 0, 0);
    lemma_add(textures, first + rest, 0, 0, 0);
    lemma_add(textures, seq![], 0, 0, 0);
    lemma_add(begin, paths, 0, 0, 0);
}

proof fn lemma_path_sprites(capacity: usize, paths: usize, viewport: Size<i32>)
    ensures
        tidy(path_sprites_plan(capacity, paths, viewport), 2, 2),
{
    let first = registration(Texture::PathIntermediate);
    let second = growth(Buffer::PathSprites, capacity, paths as int);
    let third = path_sprite_draw_plan(paths, viewport);
    assert(tidy(first, 2, 2));
    assert(tidy(second, 2, 2));
    assert(tidy(third, 2, 2));
    lemma_add(first, second, 2, 2, 2);
    lemma_add(first + second, third, 2, 2, 2);
}

proof fn lemma_each_surface(frame: u64, surfaces: Seq<PaintSurface>)
    ensures
        tidy(each_surface_plan(frame, surfaces), 7, 7),
    decreases surfaces.len(),
{
    if surfaces.len() > 0 {
        let shorter = surfaces.drop_last();
        let last = surface_plan(frame, (surfaces.len() - 1) as usize, surfaces.last());
        lemma_each_surface(frame, shorter);
        assert(tidy(last, 7, 7));
        lemma_add(each_surface_plan(frame, shorter), last, 7, 7, 7);
    }
}

proof fn lemma_surfaces(
    frame: u64,
    stale: Seq<Texture>,
    surfaces: Seq<PaintSurface>,
    viewport: Size<i32>,
)
    ensures
        tidy(surfaces_plan(frame, stale, surfaces, viewport), 7, 7),
{
    let first = removals(stale);
    let second = seq![
        Command::WriteViewportSize { width: viewport.width, height: viewport.height },
    ];
    assert(tidy(first, 7, 7)) by {
        assert forall|i: int| 0 <= i < first.len() implies #[trigger] first[i]
            is RemoveTexture by {
            assert(first[i] == Command::RemoveTexture(stale[i]));
        }
    }
    assert(tidy(second, 7, 7));
    lemma_add(first, second, 7, 7, 7);
    lemma_each_surface(frame, surfaces);
    lemma_add(first + second, each_surface_plan(frame, surfaces), 7, 7, 7);
}

/// A list may be said to hold fewer places than it might.
proof fn lemma_wider(plan: Seq<Command>, low: int, high: int, from: int, to: int)
    requires
        tidy(plan, low, high),
        from <= low,
        high <= to,
    ensures
        tidy(plan, from, to),
{
}

proof fn lemma_frame(
    renderer: Metal4Renderer,
    scene: Scene,
    viewport: Size<i32>,
    target: Target,
    opaque: bool,
)
    ensures
        tidy(renderer.frame_plan(scene, viewport, target, opaque), 0, 7),
{
    let opened = renderer.opened(scene, viewport);
    let opening = renderer.opening_plan(scene, viewport);
    let begin = seq![
        Command::BeginPass { target, opaque },
        Command::SetViewport { width: viewport.width, height: viewport.height },
    ];
    let end = seq![Command::EndPass, Command::EndCommandBuffer];
    let primitives = opened.primitives_plan(scene, viewport);
    lemma_opening(renderer, scene, viewport);
    lemma_wider(opening, 0, 0, 0, 1);
    lemma_primitives(opened, scene, viewport);
    assert(tidy(begin, 1, 1));
    assert(tidy(end, 7, 7));
    lemma_add(begin, primitives, 1, 1, 7);
    lemma_add(begin + primitives, end, 1, 7, 7);
    lemma_add(opening, begin + primitives + end, 0, 1, 7);
}

proof fn lemma_primitives(renderer: Metal4Renderer, scene: Scene, viewport: Size<i32>)
    ensures
        tidy(renderer.primitives_plan(scene, viewport), 1, 7),
{
    lemma_shapes(renderer, scene, viewport);
    let shapes = renderer.shapes_plan(scene, viewport);
    lemma_wider(shapes, 1, 4, 1, 5);
    let one = renderer.monochrome_plan(scene, viewport);
    let two = renderer.polychrome_plan(scene, viewport);
    let three = renderer.surfaces_plan(scene, viewport);
    lemma_sprites(
        Buffer::MonochromeSprites,
        Pipeline::MonochromeSprite,
        renderer.monochrome_sprites_capacity,
        renderer.resident_atlas_texture,
        scene.monochrome_sprites@,
        viewport,
    );
    lemma_sprites(
        Buffer::PolychromeSprites,
        Pipeline::PolychromeSprite,
        renderer.polychrome_sprites_capacity,
        renderer.atlas_after_monochrome(scene),
        scene.polychrome_sprites@,
        viewport,
    );
    lemma_surfaces(
        renderer.frame_number,
        renderer.surface_textures_in_residency@,
        scene.surfaces@,
        viewport,
    );
    lemma_wider(one, 5, 5, 5, 6);
    lemma_wider(two, 6, 6, 6, 7);
    lemma_add(one, two, 5, 6, 7);
    lemma_add(one + two, three, 5, 7, 7);
    lemma_add(shapes, one + two + three, 1, 5, 7);
}

proof fn lemma_shapes(renderer: Metal4Renderer, scene: Scene, viewport: Size<i32>)
    ensures
        tidy(renderer.shapes_plan(scene, viewport), 1, 4),
{
    let one = renderer.shadows_plan(scene, viewport);
    let two = renderer.paths_from_plan(scene, viewport);
    let three = renderer.quads_plan(scene, viewport);
    let four = renderer.underlines_plan(scene, viewport);
    lemma_instances(
        Buffer::Shadows,
        Pipeline::Shadow,
        renderer.shadows_capacity,
        scene.shadows,
        viewport,
    );
    lemma_path_sprites(
        renderer.path_sprites_capacity,
        scene.paths@.len() as usize,
        viewport,
    );
    lemma_instances(
        Buffer::Quads,
        Pipeline::Quad,
        renderer.quads_capacity,
        scene.quads,
        viewport,
    );
    lemma_instances(
        Buffer::Underlines,
        Pipeline::Underline,
        renderer.underlines_capacity,
        scene.underlines,
        viewport,
    );
    lemma_wider(one, 1, 1, 1, 2);
    lemma_wider(two, 2, 2, 2, 3);
    lemma_wider(three, 3, 3, 3, 4);
    lemma_add(one, two, 1, 2, 3);
    lemma_add(one + two, three, 1, 3, 4);
    lemma_add(one + two + three, four, 1, 4, 4);
}

// ---- laws --------------------------------------------------------------------------------------

/// The order of the kinds of primitives is the same in every frame: paths are rasterized first, and
/// then come shadows, composited paths, quads, underlines, monochrome sprites, polychrome sprites
/// and surfaces, whatever their order in the scene.
pub proof fn law_order_of_primitives_is_fixed(
    renderer: Metal4Renderer,
    scene: Scene,
    drawable: Option<Size<i32>>,
    size: Size<i32>,
)
    ensures
        in_order(renderer.draw_plan(scene, drawable)),
        in_order(renderer.image_plan(scene, size)),
{
    lemma_plans(renderer, scene, drawable, size);
}

/// A frame binds only to slots that the argument table has.
pub proof fn law_bindings_stay_within_the_table(
    renderer: Metal4Renderer,
    scene: Scene,
    drawable: Option<Size<i32>>,
    size: Size<i32>,
)
    ensures
        binds_within_table(renderer.draw_plan(scene, drawable)),
        binds_within_table(renderer.image_plan(scene, size)),
{
    lemma_plans(renderer, scene, drawable, size);
}

proof fn lemma_plans(
    renderer: Metal4Renderer,
    scene: Scene,
    drawable: Option<Size<i32>>,
    size: Size<i32>,
)
    ensures
        tidy(renderer.draw_plan(scene, drawable), 0, 7),
        tidy(renderer.image_plan(scene, size), 0, 7),
{
    if renderer.has_layer && drawable is Some {
        let frame = renderer.frame_plan(
            scene,
            drawable->0,
            Target::Drawable,
            renderer.opaque,
        );
        let submission = seq![
            Command::WaitForDrawable,
            Command::CommitFrame,
            Command::SignalDrawable,
            Command::Present,
            Command::SignalFrame((renderer.frame_number + 1) as u64),
        ];
        lemma_frame(renderer, scene, drawable->0, Target::Drawable, renderer.opaque);
        assert(tidy(submission, 7, 7));
        lemma_add(frame, submission, 0, 7, 7);
    } else {
        assert(tidy(renderer.draw_plan(scene, drawable), 0, 7));
    }
    lemma_image(renderer, scene, size);
}

proof fn lemma_image(renderer: Metal4Renderer, scene: Scene, size: Size<i32>)
    ensures
        tidy(renderer.image_plan(scene, size), 0, 7),
{
    let create = seq![
        Command::CreateOffscreen { width: size.width, height: size.height },
        Command::AddTexture(Texture::Offscreen),
        Command::CommitResidency,
    ];
    let frame = renderer.frame_plan(scene, size, Target::Offscreen, true);
    let submission = seq![
        Command::CommitFrame,
        Command::SignalFrame((renderer.frame_number + 1) as u64),
    ];
    lemma_frame(renderer, scene, size, Target::Offscreen, true);
    assert(tidy(create, 0, 0));
    assert(tidy(submission, 7, 7));
    lemma_add(create, frame, 0, 0, 7);
    lemma_add(create + frame, submission, 0, 7, 7);
}

/// Frames are serialized, those that are shown and those that are drawn for images alike. The last
/// thing that a frame does is to have its own end announced, and the next one waits for that before
/// it does anything else. One for an image makes its target first.
pub proof fn law_frames_are_serialized(
    renderer: Metal4Renderer,
    after: Metal4Renderer,
    scene: Scene,
    viewport: Size<i32>,
    next: Scene,
    size: Size<i32>,
)
    requires
        renderer.frame_number < u64::MAX - 1,
        renderer.drew(scene, viewport, after),
    ensures
        after.frame_number == renderer.frame_number + 1,
        renderer.has_layer ==> renderer.draw_plan(scene, Some(viewport)).last()
            == Command::SignalFrame(after.frame_number),
        renderer.image_plan(scene, viewport).last() == Command::SignalFrame(after.frame_number),
        renderer.has_layer ==> after.draw_plan(next, Some(size)).first() == Command::WaitForFrame(
            after.frame_number,
        ),
        after.image_plan(next, size).take(4) == seq![
            Command::CreateOffscreen { width: size.width, height: size.height },
            Command::AddTexture(Texture::Offscreen),
            Command::CommitResidency,
            Command::WaitForFrame(after.frame_number),
        ],
{
    let wait = after.begin_plan()[0];
    assert(after.begin_plan().len() == 3);
    assert(after.frame_plan(next, size, Target::Offscreen, true)[0] == wait);
    if renderer.has_layer {
        assert(after.draw_plan(next, Some(size))[0] == wait);
    }
    assert(after.image_plan(next, size)[3] == wait);
}

/// No frame makes a buffer smaller.
pub proof fn law_buffers_never_shrink(
    renderer: Metal4Renderer,
    after: Metal4Renderer,
    scene: Scene,
    viewport: Size<i32>,
    buffer: Buffer,
)
    requires
        scene.fits(),
        renderer.drew(scene, viewport, after),
    ensures
        capacity_of(after, buffer) >= capacity_of(renderer, buffer),
{
    law_grown_buffer_is_large_enough(renderer.shadows_capacity, scene.shadows as int);
    law_grown_buffer_is_large_enough(renderer.quads_capacity, scene.quads as int);
    law_grown_buffer_is_large_enough(renderer.underlines_capacity, scene.underlines as int);
    law_grown_buffer_is_large_enough(
        renderer.path_sprites_capacity,
        scene.paths@.len() as int,
    );
    law_grown_buffer_is_large_enough(
        renderer.path_vertices_capacity,
        crate::renderer::metal4_renderer::all_vertices(scene.paths@).len() as int,
    );
    law_grown_buffer_is_large_enough(
        renderer.monochrome_sprites_capacity,
        scene.monochrome_sprites@.len() as int,
    );
    law_grown_buffer_is_large_enough(
        renderer.polychrome_sprites_capacity,
        scene.polychrome_sprites@.len() as int,
    );
}

/// A renderer that drew a frame is set as it was, and one frame further. It remembers the last atlas
/// texture that it sampled; the textures of the surfaces that it showed, where there were surfaces; and
/// the size of its path textures, where there were paths. Each of its buffers has room for what was
/// written to it.
pub proof fn law_a_frame_leaves_the_renderer_ready(
    renderer: Metal4Renderer,
    after: Metal4Renderer,
    scene: Scene,
    viewport: Size<i32>,
)
    requires
        scene.fits(),
        renderer.frame_number < u64::MAX,
        renderer.drew(scene, viewport, after),
    ensures
        after.has_layer == renderer.has_layer,
        after.opaque == renderer.opaque,
        after.frame_number == renderer.frame_number + 1,
        scene.polychrome_sprites@.len() > 0 ==> after.resident_atlas_texture == Some(
            scene.polychrome_sprites@[0],
        ),
        scene.polychrome_sprites@.len() == 0 && scene.monochrome_sprites@.len() > 0
            ==> after.resident_atlas_texture == Some(scene.monochrome_sprites@[0]),
        scene.polychrome_sprites@.len() == 0 && scene.monochrome_sprites@.len() == 0
            ==> after.resident_atlas_texture == renderer.resident_atlas_texture,
        scene.paths@.len() == 0 ==> after.path_intermediate_size == renderer.path_intermediate_size,
        scene.paths@.len() > 0 && viewport.width > 0 && viewport.height > 0
            ==> after.path_intermediate_size == Some((viewport.width, viewport.height)),
        scene.paths@.len() > 0 && (viewport.width <= 0 || viewport.height <= 0)
            ==> after.path_intermediate_size is None,
        scene.surfaces@.len() == 0 ==> after.surface_textures_in_residency@
            == renderer.surface_textures_in_residency@,
        capacity_of(after, Buffer::Shadows) >= scene.shadows,
        capacity_of(after, Buffer::Quads) >= scene.quads,
        capacity_of(after, Buffer::Underlines) >= scene.underlines,
        capacity_of(after, Buffer::MonochromeSprites) >= scene.monochrome_sprites@.len(),
        capacity_of(after, Buffer::PolychromeSprites) >= scene.polychrome_sprites@.len(),
        scene.shadows <= renderer.shadows_capacity ==> after.shadows_capacity
            == renderer.shadows_capacity,
        scene.quads <= renderer.quads_capacity ==> after.quads_capacity == renderer.quads_capacity,
        scene.underlines <= renderer.underlines_capacity ==> after.underlines_capacity
            == renderer.underlines_capacity,
        scene.monochrome_sprites@.len() <= renderer.monochrome_sprites_capacity
            ==> after.monochrome_sprites_capacity == renderer.monochrome_sprites_capacity,
        scene.polychrome_sprites@.len() <= renderer.polychrome_sprites_capacity
            ==> after.polychrome_sprites_capacity == renderer.polychrome_sprites_capacity,
{
    law_grown_buffer_is_large_enough(renderer.shadows_capacity, scene.shadows as int);
    law_grown_buffer_is_large_enough(renderer.quads_capacity, scene.quads as int);
    law_grown_buffer_is_large_enough(renderer.underlines_capacity, scene.underlines as int);
    law_grown_buffer_is_large_enough(
        renderer.monochrome_sprites_capacity,
        scene.monochrome_sprites@.len() as int,
    );
    law_grown_buffer_is_large_enough(
        renderer.polychrome_sprites_capacity,
        scene.polychrome_sprites@.len() as int,
    );
}

/// The textures that are remembered of surfaces are the two planes of each that was shown, and no others.
pub proof fn law_shown_surfaces_are_remembered(
    frame: u64,
    surfaces: Seq<PaintSurface>,
    surface: int,
    plane: Plane,
)
    requires
        0 <= surface < surfaces.len() <= usize::MAX,
    ensures
        surface_textures(frame, surfaces).contains(
            Texture::Surface { frame, surface: surface as usize, plane },
        ) <==> surfaces[surface].pixel_format == 0x3432_3066 && surfaces[surface].luma
            && surfaces[surface].chroma,
    decreases surfaces.len(),
{
    let texture = Texture::Surface { frame, surface: surface as usize, plane };
    let shorter = surfaces.drop_last();
    let before = surface_textures(frame, shorter);
    let all = surface_textures(frame, surfaces);
    let last = (surfaces.len() - 1) as usize;
    if surface < shorter.len() {
        law_shown_surfaces_are_remembered(frame, shorter, surface, plane);
        if before.contains(texture) {
            let k = choose|k: int| 0 <= k < before.len() && before[k] == texture;
            assert(all[k] == texture);
        }
        if all.contains(texture) {
            let k = choose|k: int| 0 <= k < all.len() && all[k] == texture;
            assert(surface as usize != last);
            assert(k < before.len());
            assert(before[k] == texture);
        }
    } else {
        lemma_earlier_surfaces(frame, shorter);
        if is_drawn(surfaces.last()) {
            assert(all[before.len() as int] == Texture::Surface {
                frame,
                surface: last,
                plane: Plane::Luma,
            });
            assert(all[before.len() as int + 1] == Texture::Surface {
                frame,
                surface: last,
                plane: Plane::Chroma,
            });
        } else if all.contains(texture) {
            let k = choose|k: int| 0 <= k < before.len() && before[k] == texture;
            assert(before[k]->surface < shorter.len());
        }
    }
}

proof fn lemma_earlier_surfaces(frame: u64, surfaces: Seq<PaintSurface>)
    requires
        surfaces.len() <= usize::MAX,
    ensures
        forall|k: int|
            0 <= k < surface_textures(frame, surfaces).len() ==> (#[trigger] surface_textures(
                frame,
                surfaces,
            )[k] matches Texture::Surface { surface, .. } && surface < surfaces.len()),
    decreases surfaces.len(),
{
    if surfaces.len() > 0 {
        let before = surface_textures(frame, surfaces.drop_last());
        lemma_earlier_surfaces(frame, surfaces.drop_last());
        assert forall|k: int| 0 <= k < surface_textures(frame, surfaces).len() implies (
        #[trigger] surface_textures(frame, surfaces)[k] matches Texture::Surface { surface, .. }
            && surface < surfaces.len()) by {
            if k < before.len() {
                assert(surface_textures(frame, surfaces)[k] == before[k]);
            }
        }
    }
}

/// A surface that is not drawn is reported, and for the first reason: its format, then the plane of its
/// brightness, then that of its colours. One that is drawn is not.
pub proof fn law_surfaces_are_drawn_or_reported(frame: u64, index: usize, surface: PaintSurface)
    ensures
        ({
            let plan = surface_plan(frame, index, surface);
            let supported = surface.pixel_format == 0x3432_3066;
            &&& !supported ==> plan == seq![Command::Report(Report::UnsupportedSurface)]
            &&& supported && !surface.luma ==> plan == seq![
                Command::Report(Report::NoSurfaceTexture(Plane::Luma)),
            ]
            &&& supported && surface.luma && !surface.chroma ==> plan == seq![
                Command::Report(Report::NoSurfaceTexture(Plane::Chroma)),
            ]
            &&& supported && surface.luma && surface.chroma ==> plan.last() is Draw && forall|i: int|
                0 <= i < plan.len() ==> !(#[trigger] plan[i] is Report)
        }),
{
}

/// Sprites that are not all in one atlas texture are reported, with the texture that is sampled. The
/// texture is made resident unless it is the one that was last.
pub proof fn law_mixed_sprites_are_reported(
    resident: Option<AtlasTextureId>,
    sprites: Seq<AtlasTextureId>,
)
    requires
        sprites.len() > 0,
    ensures
        (exists|i: int, j: int|
            0 <= i < sprites.len() && 0 <= j < sprites.len() && #[trigger] sprites[i]
                != #[trigger] sprites[j]) <==> atlas_plan(resident, sprites).len() > 0 && atlas_plan(
            resident,
            sprites,
        )[0] == Command::Report(Report::MixedAtlasTextures(sprites[0])),
        resident == Some(sprites[0]) <==> forall|i: int|
            0 <= i < atlas_plan(resident, sprites).len() ==> !(#[trigger] atlas_plan(
                resident,
                sprites,
            )[i] is AddTexture),
        resident != Some(sprites[0]) ==> {
            let plan = atlas_plan(resident, sprites);
            &&& plan.len() >= 2
            &&& plan[plan.len() - 2] == Command::AddTexture(Texture::Atlas(sprites[0]))
            &&& plan.last() is CommitResidency
        },
{
    let plan = atlas_plan(resident, sprites);
    if exists|i: int, j: int|
        0 <= i < sprites.len() && 0 <= j < sprites.len() && #[trigger] sprites[i]
            != #[trigger] sprites[j] {
        let (i, j) = choose|i: int, j: int|
            0 <= i < sprites.len() && 0 <= j < sprites.len() && #[trigger] sprites[i]
                != #[trigger] sprites[j];
        if sprites[i] == sprites[0] {
            assert(sprites[j] != sprites[0]);
        }
        assert(mixed(sprites));
        assert(plan[0] == Command::Report(Report::MixedAtlasTextures(sprites[0])));
    } else if mixed(sprites) {
        let i = choose|i: int| 0 <= i < sprites.len() && #[trigger] sprites[i] != sprites[0];
        assert(sprites[i] != sprites[0]);
    }
    if resident != Some(sprites[0]) {
        assert(plan[plan.len() - 2] == Command::AddTexture(Texture::Atlas(sprites[0])));
    }
}

/// A buffer that is replaced gets room for a power of two of items: enough for those that it is replaced
/// for, and less than twice as many.
pub proof fn law_buffers_grow_to_powers_of_two(buffer: Buffer, capacity: usize, count: int)
    requires
        0 <= count <= isize::MAX,
    ensures
        count <= capacity ==> growth(buffer, capacity, count).len() == 0,
        count > capacity ==> {
            let plan = growth(buffer, capacity, count);
            &&& plan.len() == 2
            &&& plan[0] matches Command::GrowBuffer { buffer: one, capacity: room }
            &&& one == buffer
            &&& count <= room
            &&& room < 2 * count
            &&& exists|exponent: nat| room == #[trigger] pow2(exponent)
            &&& plan[1] is CommitResidency
        },
{
    if count > capacity {
        law_grown_buffer_is_large_enough(capacity, count);
        lemma2_to64();
        lemma_doubled_power(0, count as nat);
    }
}

proof fn lemma_doubled_power(exponent: nat, count: nat)
    requires
        count > 0,
        pow2(exponent) < 2 * count,
    ensures
        exists|other: nat| doubled(pow2(exponent), count) == #[trigger] pow2(other),
        doubled(pow2(exponent), count) < 2 * count,
    decreases 2 * count - pow2(exponent),
{
    lemma_pow2_pos(exponent);
    if pow2(exponent) < count {
        lemma_pow2_unfold(exponent + 1);
        lemma_doubled_power(exponent + 1, count);
    }
}

/// Without a layer, or where the layer has no drawable to give, nothing is drawn: there is a report and
/// nothing else.
pub proof fn law_nothing_is_drawn_without_a_drawable(
    renderer: Metal4Renderer,
    scene: Scene,
    drawable: Option<Size<i32>>,
)
    ensures
        !renderer.has_layer <==> renderer.draw_plan(scene, drawable) == seq![
            Command::Report(Report::HeadlessDraw),
        ],
        renderer.has_layer && drawable is None <==> renderer.draw_plan(scene, drawable) == seq![
            Command::Report(Report::NoDrawable),
        ],
{
    let headless = seq![Command::Report(Report::HeadlessDraw)];
    let absent = seq![Command::Report(Report::NoDrawable)];
    let plan = renderer.draw_plan(scene, drawable);
    assert(headless[0] != absent[0]);
    assert(headless.last() == headless[0] && absent.last() == absent[0]);
    if renderer.has_layer && drawable is Some {
        assert(plan.last() == Command::SignalFrame((renderer.frame_number + 1) as u64));
        assert(plan.last() != headless.last() && plan.last() != absent.last());
    } else if !renderer.has_layer {
        assert(plan[0] == headless[0]);
    } else {
        assert(plan[0] == absent[0]);
    }
}

/// A frame is one command buffer. Its allocator is reset behind the wait for the frame before it, then the
/// buffer is begun; it is ended before it is committed. A frame on a layer waits for its drawable before
/// that, signals it behind, and is then presented. The last thing is to have its end announced.
pub proof fn law_a_frame_is_one_command_buffer(
    renderer: Metal4Renderer,
    scene: Scene,
    viewport: Size<i32>,
)
    ensures
        ({
            let image = renderer.image_plan(scene, viewport);
            let first = if renderer.frame_number > 0 {
                4int
            } else {
                3
            };
            &&& image[first] is ResetAllocator
            &&& image[first + 1] is BeginCommandBuffer
            &&& image[image.len() - 4] is EndPass
            &&& image[image.len() - 3] is EndCommandBuffer
            &&& image[image.len() - 2] is CommitFrame
            &&& image[image.len() - 1] is SignalFrame
        }),
        renderer.has_layer ==> {
            let plan = renderer.draw_plan(scene, Some(viewport));
            let first = if renderer.frame_number > 0 {
                1int
            } else {
                0
            };
            &&& plan[first] is ResetAllocator
            &&& plan[first + 1] is BeginCommandBuffer
            &&& plan[plan.len() - 7] is EndPass
            &&& plan[plan.len() - 6] is EndCommandBuffer
            &&& plan[plan.len() - 5] is WaitForDrawable
            &&& plan[plan.len() - 4] is CommitFrame
            &&& plan[plan.len() - 3] is SignalDrawable
            &&& plan[plan.len() - 2] is Present
            &&& plan[plan.len() - 1] is SignalFrame
        },
{
    let begin = renderer.begin_plan();
    let frame = renderer.frame_plan(scene, viewport, Target::Offscreen, true);
    let shown = renderer.frame_plan(scene, viewport, Target::Drawable, renderer.opaque);
    let first = begin.len() - 2;
    assert(frame[first] == begin[first] && frame[first + 1] == begin[first + 1]);
    assert(shown[first] == begin[first] && shown[first + 1] == begin[first + 1]);
    assert(frame[frame.len() - 1] is EndCommandBuffer && frame[frame.len() - 2] is EndPass);
    assert(shown[shown.len() - 1] is EndCommandBuffer && shown[shown.len() - 2] is EndPass);
    let image = renderer.image_plan(scene, viewport);
    assert(image.len() == 3 + frame.len() + 2);
    assert(image[3 + first] == frame[first] && image[3 + first + 1] == frame[first + 1]);
    assert(image[3 + frame.len() - 1] == frame[frame.len() - 1]);
    assert(image[3 + frame.len() - 2] == frame[frame.len() - 2]);
    if renderer.has_layer {
        let plan = renderer.draw_plan(scene, Some(viewport));
        assert(plan.len() == shown.len() + 5);
        assert(plan[first] == shown[first] && plan[first + 1] == shown[first + 1]);
        assert(plan[shown.len() - 1] == shown[shown.len() - 1]);
        assert(plan[shown.len() - 2] == shown[shown.len() - 2]);
    }
}

/// The path textures are made anew where the viewport has another size than they have, and dropped where
/// it has no area. Where they fit they stay.
pub proof fn law_path_textures_fit_the_viewport(
    current: Option<(i32, i32)>,
    viewport: Size<i32>,
)
    ensures
        ({
            let plan = path_textures_plan(current, viewport);
            let fits = current is Some && (current->0).0 == viewport.width && (current->0).1
                == viewport.height;
            let area = viewport.width > 0 && viewport.height > 0;
            &&& fits ==> plan.len() == 0
            &&& !fits && area ==> plan.len() == 1 && plan[0] == Command::CreatePathTextures {
                width: viewport.width,
                height: viewport.height,
                sample_count: 4,
            }
            &&& !fits && !area ==> plan.len() == 1 && plan[0] is DropPathTextures
        }),
{
}

} // verus!
