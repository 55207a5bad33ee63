//! The promise that a frame reads nothing that is not bound and resident, writes nothing past the
//! end of a buffer, and encodes one pass at a time.

use crate::geometry::Size;
use crate::renderer::gpu::{
    lemma_run_add, AtlasTextureId, Buffer, Command, Gpu, Pipeline, Plane, Resource, Target, Texture,
};
use crate::renderer::metal4_renderer::{
    all_vertices, atlas_plan, each_surface_plan, grown, growth, instance_draw_plan, instances_plan,
    is_drawn, law_grown_buffer_is_large_enough, path_draw_plan, path_sprite_draw_plan,
    path_sprites_plan, path_textures_plan, plane_of, rasterizes, registration, removals,
    sprite_draw_plan, sprites_plan, surface_plan, surface_textures, surfaces_plan, was_drawn,
    Metal4Renderer, PaintSurface, Scene,
};
use crate::renderer::metal4_renderer::{MAX_PATH_VERTICES_INITIAL, MAX_QUADS_PER_FRAME_INITIAL};
use crate::renderer::setup::{
    buffer_plan, buffers_plan, device_plan, is_new, layer_plan, pipelines_plan, setup_plan,
};
use vstd::prelude::*;

verus! {

/// How many items the renderer takes a buffer to hold.
pub open spec fn capacity_of(renderer: Metal4Renderer, buffer: Buffer) -> usize {
    match buffer {
        Buffer::UnitVertices => 6,
        Buffer::ViewportSize => 1,
        Buffer::AtlasSize => 1,
        Buffer::Quads => renderer.quads_capacity,
        Buffer::Underlines => renderer.underlines_capacity,
        Buffer::Shadows => renderer.shadows_capacity,
        Buffer::MonochromeSprites => renderer.monochrome_sprites_capacity,
        Buffer::PolychromeSprites => renderer.polychrome_sprites_capacity,
        Buffer::PathVertices => renderer.path_vertices_capacity,
        Buffer::PathSprites => renderer.path_sprites_capacity,
        Buffer::SurfaceBounds => 1,
    }
}

/// A buffer is as large as the renderer takes it to be, and it is resident.
pub open spec fn backs_buffer(gpu: Gpu, renderer: Metal4Renderer, buffer: Buffer) -> bool {
    &&& gpu.staged.contains(Resource::Buffer(buffer))
    &&& gpu.resident.contains(Resource::Buffer(buffer))
    &&& gpu.capacity.contains_key(buffer)
    &&& gpu.capacity[buffer] == capacity_of(renderer, buffer)
}

pub open spec fn backs_buffers(gpu: Gpu, renderer: Metal4Renderer) -> bool {
    forall|buffer: Buffer| #[trigger] backs_buffer(gpu, renderer, buffer)
}

/// The texture is resident, and stays so when the residency set is next committed.
pub open spec fn registered(gpu: Gpu, texture: Texture) -> bool {
    &&& gpu.staged.contains(Resource::Texture(texture))
    &&& gpu.resident.contains(Resource::Texture(texture))
}

pub open spec fn backs_atlas(gpu: Gpu, texture: Option<AtlasTextureId>) -> bool {
    texture matches Some(id) ==> registered(gpu, Texture::Atlas(id))
}

/// Of the textures of surfaces, those in the list and no others are in the residency set.
pub open spec fn backs_surfaces(gpu: Gpu, textures: Seq<Texture>) -> bool {
    forall|texture: Texture|
        texture is Surface ==> (#[trigger] gpu.staged.contains(Resource::Texture(texture))
            == textures.contains(texture))
}

/// A GPU is in the state that a renderer takes it to be in.
pub open spec fn backs(gpu: Gpu, renderer: Metal4Renderer) -> bool {
    &&& backs_buffers(gpu, renderer)
    &&& backs_atlas(gpu, renderer.resident_atlas_texture)
    &&& backs_surfaces(gpu, renderer.surface_textures_in_residency@)
}

/// What a draw leaves as it was: everything but the argument table and the pipeline.
spec fn same_resources(a: Gpu, b: Gpu) -> bool {
    &&& a.resident == b.resident
    &&& a.staged == b.staged
    &&& a.capacity == b.capacity
    &&& a.encoding == b.encoding
}

/// `after` takes one buffer to hold at least `count` items, and is otherwise as `before`.
spec fn grew(before: Metal4Renderer, after: Metal4Renderer, buffer: Buffer, count: int) -> bool {
    &&& forall|other: Buffer| #[trigger]
        capacity_of(after, other) == if other == buffer {
            grown(capacity_of(before, buffer), count)
        } else {
            capacity_of(before, other)
        }
    &&& after.surface_textures_in_residency == before.surface_textures_in_residency
}

// ---- the parts of a frame ----------------------------------------------------------------------

proof fn lemma_instance_draw(
    gpu: Gpu,
    renderer: Metal4Renderer,
    buffer: Buffer,
    pipeline: Pipeline,
    count: usize,
    viewport: Size<i32>,
)
    requires
        gpu.encoding,
        backs_buffers(gpu, renderer),
        count <= capacity_of(renderer, buffer),
        pipeline is Quad || pipeline is Underline || pipeline is Shadow,
    ensures
        gpu.safe(instance_draw_plan(buffer, pipeline, count, viewport)),
        same_resources(gpu, gpu.run(instance_draw_plan(buffer, pipeline, count, viewport))),
{
    reveal_with_fuel(Gpu::run_first, 9);
    reveal_with_fuel(Gpu::safe_first, 9);
    assert(backs_buffer(gpu, renderer, buffer));
    assert(backs_buffer(gpu, renderer, Buffer::UnitVertices));
    assert(backs_buffer(gpu, renderer, Buffer::ViewportSize));
}

proof fn lemma_sprite_draw(
    gpu: Gpu,
    renderer: Metal4Renderer,
    buffer: Buffer,
    pipeline: Pipeline,
    texture: Texture,
    count: usize,
    viewport: Size<i32>,
)
    requires
        gpu.encoding,
        backs_buffers(gpu, renderer),
        registered(gpu, texture),
        count <= capacity_of(renderer, buffer),
        pipeline is MonochromeSprite || pipeline is PolychromeSprite,
    ensures
        gpu.safe(sprite_draw_plan(buffer, pipeline, texture, count, viewport)),
        same_resources(gpu, gpu.run(sprite_draw_plan(buffer, pipeline, texture, count, viewport))),
{
    reveal_with_fuel(Gpu::run_first, 12);
    reveal_with_fuel(Gpu::safe_first, 12);
    assert(backs_buffer(gpu, renderer, buffer));
    assert(backs_buffer(gpu, renderer, Buffer::UnitVertices));
    assert(backs_buffer(gpu, renderer, Buffer::ViewportSize));
    assert(backs_buffer(gpu, renderer, Buffer::AtlasSize));
}

proof fn lemma_path_draw(
    gpu: Gpu,
    renderer: Metal4Renderer,
    vertices: usize,
    viewport: Size<i32>,
)
    requires
        !gpu.encoding,
        backs_buffers(gpu, renderer),
        vertices <= renderer.path_vertices_capacity,
    ensures
        gpu.safe(path_draw_plan(vertices, viewport)),
        same_resources(gpu, gpu.run(path_draw_plan(vertices, viewport))),
{
    reveal_with_fuel(Gpu::run_first, 10);
    reveal_with_fuel(Gpu::safe_first, 10);
    assert(backs_buffer(gpu, renderer, Buffer::PathVertices));
    assert(backs_buffer(gpu, renderer, Buffer::ViewportSize));
}

proof fn lemma_path_sprite_draw(
    gpu: Gpu,
    renderer: Metal4Renderer,
    paths: usize,
    viewport: Size<i32>,
)
    requires
        gpu.encoding,
        backs_buffers(gpu, renderer),
        registered(gpu, Texture::PathIntermediate),
        paths <= renderer.path_sprites_capacity,
    ensures
        gpu.safe(path_sprite_draw_plan(paths, viewport)),
        same_resources(gpu, gpu.run(path_sprite_draw_plan(paths, viewport))),
{
    reveal_with_fuel(Gpu::run_first, 10);
    reveal_with_fuel(Gpu::safe_first, 10);
    assert(backs_buffer(gpu, renderer, Buffer::PathSprites));
    assert(backs_buffer(gpu, renderer, Buffer::UnitVertices));
    assert(backs_buffer(gpu, renderer, Buffer::ViewportSize));
}

proof fn lemma_growth(
    gpu: Gpu,
    before: Metal4Renderer,
    after: Metal4Renderer,
    buffer: Buffer,
    count: int,
)
    requires
        backs_buffers(gpu, before),
        grew(before, after, buffer, count),
        0 <= count <= isize::MAX,
    ensures
        gpu.run(growth(buffer, capacity_of(before, buffer), count)).encoding == gpu.encoding,
        ({
            let plan = growth(buffer, capacity_of(before, buffer), count);
            let then = gpu.run(plan);
            &&& gpu.safe(plan)
            &&& count <= capacity_of(after, buffer)
            &&& backs_buffers(then, after)
            &&& forall|texture: Texture|
                gpu.staged.contains(Resource::Texture(texture))
                    == #[trigger] then.staged.contains(Resource::Texture(texture))
            &&& forall|texture: Texture|
                #![trigger registered(then, texture)]
                registered(gpu, texture) ==> registered(then, texture)
        }),
{
    reveal_with_fuel(Gpu::run_first, 3);
    reveal_with_fuel(Gpu::safe_first, 3);
    law_grown_buffer_is_large_enough(capacity_of(before, buffer), count);
    let then = gpu.run(growth(buffer, capacity_of(before, buffer), count));
    assert forall|other: Buffer| #[trigger] backs_buffer(then, after, other) by {
        assert(backs_buffer(gpu, before, other));
        assert(backs_buffer(gpu, before, buffer));
    }
}

proof fn lemma_registration(gpu: Gpu, renderer: Metal4Renderer, texture: Texture)
    requires
        backs_buffers(gpu, renderer),
    ensures
        gpu.run(registration(texture)).encoding == gpu.encoding,
        gpu.safe(registration(texture)),
        backs_buffers(gpu.run(registration(texture)), renderer),
        registered(gpu.run(registration(texture)), texture),
        forall|other: Texture|
            #![trigger registered(gpu.run(registration(texture)), other)]
            registered(gpu, other) ==> registered(gpu.run(registration(texture)), other),
        gpu.run(registration(texture)).staged == gpu.staged.insert(Resource::Texture(texture)),
{
    reveal_with_fuel(Gpu::run_first, 3);
    reveal_with_fuel(Gpu::safe_first, 3);
    let then = gpu.run(registration(texture));
    assert forall|other: Buffer| #[trigger] backs_buffer(then, renderer, other) by {
        assert(backs_buffer(gpu, renderer, other));
    }
}

/// What `backs` says goes by the resources alone.
proof fn lemma_same(a: Gpu, b: Gpu, renderer: Metal4Renderer)
    requires
        same_resources(a, b),
        backs(a, renderer),
    ensures
        backs(b, renderer),
{
    assert forall|other: Buffer| #[trigger] backs_buffer(b, renderer, other) by {
        assert(backs_buffer(a, renderer, other));
    }
}

proof fn lemma_instances(
    gpu: Gpu,
    before: Metal4Renderer,
    after: Metal4Renderer,
    buffer: Buffer,
    pipeline: Pipeline,
    count: usize,
    viewport: Size<i32>,
)
    requires
        gpu.encoding,
        backs(gpu, before),
        count <= isize::MAX,
        pipeline is Quad || pipeline is Underline || pipeline is Shadow,
        grew(before, after, buffer, count as int),
        after.resident_atlas_texture == before.resident_atlas_texture,
    ensures
        ({
            let plan = instances_plan(
                buffer,
                pipeline,
                capacity_of(before, buffer),
                count,
                viewport,
            );
            gpu.safe(plan) && backs(gpu.run(plan), after) && gpu.run(plan).encoding
        }),
{
    let first = growth(buffer, capacity_of(before, buffer), count as int);
    let rest = instance_draw_plan(buffer, pipeline, count, viewport);
    lemma_run_add(gpu, first, rest);
    lemma_growth(gpu, before, after, buffer, count as int);
    lemma_instance_draw(gpu.run(first), after, buffer, pipeline, count, viewport);
    lemma_same(gpu.run(first), gpu.run(first).run(rest), after);
}

proof fn lemma_sprites(
    gpu: Gpu,
    before: Metal4Renderer,
    after: Metal4Renderer,
    buffer: Buffer,
    pipeline: Pipeline,
    sprites: Seq<AtlasTextureId>,
    viewport: Size<i32>,
)
    requires
        gpu.encoding,
        backs(gpu, before),
        0 < sprites.len() <= isize::MAX,
        pipeline is MonochromeSprite || pipeline is PolychromeSprite,
        grew(before, after, buffer, sprites.len() as int),
        after.resident_atlas_texture == Some(sprites[0]),
    ensures
        ({
            let plan = sprites_plan(
                buffer,
                pipeline,
                capacity_of(before, buffer),
                before.resident_atlas_texture,
                sprites,
                viewport,
            );
            gpu.safe(plan) && backs(gpu.run(plan), after) && gpu.run(plan).encoding
        }),
{
    let texture = Texture::Atlas(sprites[0]);
    let count = sprites.len() as usize;
    let one = atlas_plan(before.resident_atlas_texture, sprites);
    let two = growth(buffer, capacity_of(before, buffer), sprites.len() as int);
    let three = sprite_draw_plan(buffer, pipeline, texture, count, viewport);
    lemma_atlas(gpu, before, sprites);
    lemma_run_add(gpu, one, two);
    lemma_run_add(gpu, one + two, three);
    let prepared = gpu.run(one);
    lemma_growth(prepared, before, after, buffer, sprites.len() as int);
    let large = prepared.run(two);
    assert(registered(large, texture));
    lemma_sprite_draw(large, after, buffer, pipeline, texture, count, viewport);
    lemma_same(large, large.run(three), after);
}

proof fn lemma_atlas(gpu: Gpu, renderer: Metal4Renderer, sprites: Seq<AtlasTextureId>)
    requires
        backs(gpu, renderer),
        sprites.len() > 0,
    ensures
        gpu.run(atlas_plan(renderer.resident_atlas_texture, sprites)).encoding == gpu.encoding,
        ({
            let plan = atlas_plan(renderer.resident_atlas_texture, sprites);
            let then = gpu.run(plan);
            &&& gpu.safe(plan)
            &&& backs_buffers(then, renderer)
            &&& registered(then, Texture::Atlas(sprites[0]))
            &&& backs_surfaces(then, renderer.surface_textures_in_residency@)
        }),
{
    reveal_with_fuel(Gpu::run_first, 2);
    reveal_with_fuel(Gpu::safe_first, 2);
    let resident = renderer.resident_atlas_texture;
    let texture = Texture::Atlas(sprites[0]);
    let plan = atlas_plan(resident, sprites);
    if resident == Some(sprites[0]) {
        assert(gpu.run(plan) == gpu);
    } else {
        let report = plan.take(plan.len() - 2);
        assert(plan =~= report + registration(texture));
        lemma_run_add(gpu, report, registration(texture));
        assert(gpu.run(report) == gpu);
        lemma_registration(gpu, renderer, texture);
    }
}

// ---- surfaces ----------------------------------------------------------------------------------

proof fn lemma_removals(gpu: Gpu, textures: Seq<Texture>, count: nat)
    requires
        count <= textures.len(),
    ensures
        ({
            let then = gpu.run_first(removals(textures), count);
            &&& gpu.safe_first(removals(textures), count)
            &&& then.resident == gpu.resident
            &&& then.capacity == gpu.capacity
            &&& then.encoding == gpu.encoding
            &&& forall|resource: Resource| #[trigger]
                then.staged.contains(resource) == (gpu.staged.contains(resource) && !(resource
                    matches Resource::Texture(texture) && textures.take(count as int).contains(
                    texture,
                )))
        }),
    decreases count,
{
    if count > 0 {
        let before = (count - 1) as nat;
        lemma_removals(gpu, textures, before);
        let last = textures[count - 1];
        assert(removals(textures)[count - 1] == Command::RemoveTexture(last));
        let then = gpu.run_first(removals(textures), count);
        assert forall|resource: Resource| #[trigger]
            then.staged.contains(resource) == (gpu.staged.contains(resource) && !(resource matches
                Resource::Texture(texture) && textures.take(count as int).contains(texture))) by {
            if let Resource::Texture(texture) = resource {
                let shorter = textures.take(before as int);
                let longer = textures.take(count as int);
                assert(longer =~= shorter.push(last));
                if longer.contains(texture) && texture != last {
                    let i = choose|i: int| 0 <= i < longer.len() && longer[i] == texture;
                    assert(shorter[i] == texture);
                }
                if shorter.contains(texture) {
                    let i = choose|i: int| 0 <= i < shorter.len() && shorter[i] == texture;
                    assert(longer[i] == texture);
                }
                assert(longer[count - 1] == last);
            }
        }
    }
}

proof fn lemma_surface(
    gpu: Gpu,
    renderer: Metal4Renderer,
    frame: u64,
    index: usize,
    surface: PaintSurface,
)
    requires
        gpu.encoding,
        backs_buffers(gpu, renderer),
        backs_atlas(gpu, renderer.resident_atlas_texture),
    ensures
        ({
            let plan = surface_plan(frame, index, surface);
            let then = gpu.run(plan);
            &&& gpu.safe(plan)
            &&& then.encoding
            &&& backs_buffers(then, renderer)
            &&& backs_atlas(then, renderer.resident_atlas_texture)
            &&& then.staged == if is_drawn(surface) {
                gpu.staged.insert(Resource::Texture(plane_of(frame, index, Plane::Luma))).insert(
                    Resource::Texture(plane_of(frame, index, Plane::Chroma)),
                )
            } else {
                gpu.staged
            }
        }),
{
    reveal_with_fuel(Gpu::run_first, 15);
    reveal_with_fuel(Gpu::safe_first, 15);
    assert(backs_buffer(gpu, renderer, Buffer::SurfaceBounds));
    assert(backs_buffer(gpu, renderer, Buffer::UnitVertices));
    assert(backs_buffer(gpu, renderer, Buffer::ViewportSize));
    assert(backs_buffer(gpu, renderer, Buffer::AtlasSize));
    let then = gpu.run(surface_plan(frame, index, surface));
    assert forall|other: Buffer| #[trigger] backs_buffer(then, renderer, other) by {
        assert(backs_buffer(gpu, renderer, other));
    }
}

proof fn lemma_each_surface(
    gpu: Gpu,
    renderer: Metal4Renderer,
    frame: u64,
    surfaces: Seq<PaintSurface>,
)
    requires
        gpu.encoding,
        backs_buffers(gpu, renderer),
        backs_atlas(gpu, renderer.resident_atlas_texture),
        backs_surfaces(gpu, seq![]),
    ensures
        ({
            let plan = each_surface_plan(frame, surfaces);
            let then = gpu.run(plan);
            &&& gpu.safe(plan)
            &&& then.encoding
            &&& backs_buffers(then, renderer)
            &&& backs_atlas(then, renderer.resident_atlas_texture)
            &&& backs_surfaces(then, surface_textures(frame, surfaces))
        }),
    decreases surfaces.len(),
{
    if surfaces.len() > 0 {
        let index = (surfaces.len() - 1) as usize;
        let first = each_surface_plan(frame, surfaces.drop_last());
        let rest = surface_plan(frame, index, surfaces.last());
        lemma_each_surface(gpu, renderer, frame, surfaces.drop_last());
        lemma_run_add(gpu, first, rest);
        lemma_surface(gpu.run(first), renderer, frame, index, surfaces.last());
        let shorter = surface_textures(frame, surfaces.drop_last());
        let longer = surface_textures(frame, surfaces);
        let luma = plane_of(frame, index, Plane::Luma);
        let chroma = plane_of(frame, index, Plane::Chroma);
        let then = gpu.run(first + rest);
        assert forall|texture: Texture| texture is Surface implies (
        #[trigger] then.staged.contains(Resource::Texture(texture)) == longer.contains(texture)) by {
            assert(gpu.run(first).staged.contains(Resource::Texture(texture)) == shorter.contains(
                texture,
            ));
            if is_drawn(surfaces.last()) {
                assert(longer =~= shorter.push(luma).push(chroma));
                lemma_push_contains(shorter, luma, texture);
                lemma_push_contains(shorter.push(luma), chroma, texture);
            }
        }
    }
}

proof fn lemma_push_contains(textures: Seq<Texture>, last: Texture, texture: Texture)
    ensures
        textures.push(last).contains(texture) == (textures.contains(texture) || texture == last),
{
    let longer = textures.push(last);
    if textures.contains(texture) {
        let i = choose|i: int| 0 <= i < textures.len() && textures[i] == texture;
        assert(longer[i] == texture);
    }
    assert(longer[textures.len() as int] == last);
    if longer.contains(texture) && texture != last {
        let i = choose|i: int| 0 <= i < longer.len() && longer[i] == texture;
        assert(textures[i] == texture);
    }
}

proof fn lemma_surfaces(
    gpu: Gpu,
    renderer: Metal4Renderer,
    frame: u64,
    surfaces: Seq<PaintSurface>,
    viewport: Size<i32>,
)
    requires
        gpu.encoding,
        backs(gpu, renderer),
        renderer.wf(),
        surfaces.len() > 0,
    ensures
        ({
            let stale = renderer.surface_textures_in_residency@;
            let plan = surfaces_plan(frame, stale, surfaces, viewport);
            let then = gpu.run(plan);
            &&& gpu.safe(plan)
            &&& then.encoding
            &&& backs_buffers(then, renderer)
            &&& backs_atlas(then, renderer.resident_atlas_texture)
            &&& backs_surfaces(then, surface_textures(frame, surfaces))
        }),
{
    reveal_with_fuel(Gpu::run_first, 2);
    reveal_with_fuel(Gpu::safe_first, 2);
    let stale = renderer.surface_textures_in_residency@;
    let one = removals(stale);
    let two = seq![
        Command::WriteViewportSize { width: viewport.width, height: viewport.height },
    ];
    let three = each_surface_plan(frame, surfaces);
    lemma_run_add(gpu, one, two);
    lemma_run_add(gpu, one + two, three);
    lemma_removals(gpu, stale, stale.len());
    assert(stale.take(stale.len() as int) =~= stale);
    let cleared = gpu.run(one).run(two);
    assert(cleared == gpu.run(one));
    assert forall|other: Buffer| #[trigger] backs_buffer(cleared, renderer, other) by {
        assert(backs_buffer(gpu, renderer, other));
    }
    if let Some(id) = renderer.resident_atlas_texture {
        let atlas = Texture::Atlas(id);
        assert(!stale.contains(atlas)) by {
            if stale.contains(atlas) {
                let i = choose|i: int| 0 <= i < stale.len() && stale[i] == atlas;
                assert(was_drawn(stale[i], renderer.frame_number));
            }
        }
        assert(cleared.staged.contains(Resource::Texture(atlas)));
    }
    lemma_each_surface(cleared, renderer, frame, surfaces);
}

// ---- paths -------------------------------------------------------------------------------------

proof fn lemma_path_textures(
    gpu: Gpu,
    renderer: Metal4Renderer,
    viewport: Size<i32>,
)
    requires
        backs(gpu, renderer),
    ensures
        ({
            let plan = path_textures_plan(renderer.path_intermediate_size, viewport);
            gpu.safe(plan) && backs(gpu.run(plan), renderer) && gpu.run(plan).encoding
                == gpu.encoding
        }),
{
    reveal_with_fuel(Gpu::run_first, 2);
    reveal_with_fuel(Gpu::safe_first, 2);
    let then = gpu.run(path_textures_plan(renderer.path_intermediate_size, viewport));
    assert forall|other: Buffer| #[trigger] backs_buffer(then, renderer, other) by {
        assert(backs_buffer(gpu, renderer, other));
    }
}

proof fn lemma_opening(
    gpu: Gpu,
    renderer: Metal4Renderer,
    scene: Scene,
    viewport: Size<i32>,
)
    requires
        !gpu.encoding,
        backs(gpu, renderer),
        scene.fits(),
    ensures
        !gpu.run(renderer.opening_plan(scene, viewport)).encoding,
        gpu.safe(renderer.opening_plan(scene, viewport)),
        backs(
            gpu.run(renderer.opening_plan(scene, viewport)),
            renderer.opened(scene, viewport),
        ),
{
    reveal_with_fuel(Gpu::run_first, 4);
    reveal_with_fuel(Gpu::safe_first, 4);
    let after = renderer.opened(scene, viewport);
    let one = renderer.begin_plan();
    let two = renderer.paths_to_plan(scene.paths@, viewport);
    lemma_run_add(gpu, one, two);
    assert(gpu.run(one) == gpu);
    if scene.paths@.len() == 0 {
        lemma_renamed(gpu, renderer, after);
    } else {
        let textures = path_textures_plan(renderer.path_intermediate_size, viewport);
        lemma_path_textures(gpu, renderer, viewport);
        let then = gpu.run(textures);
        if rasterizes(scene.paths@, viewport) {
            let vertices = all_vertices(scene.paths@).len() as usize;
            let first = growth(
                Buffer::PathVertices,
                renderer.path_vertices_capacity,
                vertices as int,
            );
            let rest = path_draw_plan(vertices, viewport);
            lemma_run_add(gpu, textures, first + rest);
            lemma_run_add(then, first, rest);
            lemma_growth(then, renderer, after, Buffer::PathVertices, vertices as int);
            lemma_path_draw(then.run(first), after, vertices, viewport);
            lemma_same(then.run(first), then.run(first).run(rest), after);
        } else {
            assert(two =~= textures);
            lemma_renamed(then, renderer, after);
        }
    }
}

/// What `backs` says goes by what a renderer knows of the GPU's resources alone.
proof fn lemma_renamed(gpu: Gpu, before: Metal4Renderer, after: Metal4Renderer)
    requires
        backs(gpu, before),
        forall|buffer: Buffer| #[trigger]
            capacity_of(after, buffer) == capacity_of(before, buffer),
        after.resident_atlas_texture == before.resident_atlas_texture,
        after.surface_textures_in_residency@ == before.surface_textures_in_residency@,
    ensures
        backs(gpu, after),
{
    assert forall|buffer: Buffer| #[trigger] backs_buffer(gpu, after, buffer) by {
        assert(backs_buffer(gpu, before, buffer));
        assert(capacity_of(after, buffer) == capacity_of(before, buffer));
    }
}

proof fn lemma_path_sprites(
    gpu: Gpu,
    before: Metal4Renderer,
    after: Metal4Renderer,
    paths: usize,
    viewport: Size<i32>,
)
    requires
        gpu.encoding,
        backs(gpu, before),
        paths <= isize::MAX,
        grew(before, after, Buffer::PathSprites, paths as int),
        after.resident_atlas_texture == before.resident_atlas_texture,
    ensures
        ({
            let plan = path_sprites_plan(before.path_sprites_capacity, paths, viewport);
            gpu.safe(plan) && backs(gpu.run(plan), after) && gpu.run(plan).encoding
        }),
{
    let texture = Texture::PathIntermediate;
    let one = registration(texture);
    let two = growth(Buffer::PathSprites, before.path_sprites_capacity, paths as int);
    let three = path_sprite_draw_plan(paths, viewport);
    lemma_run_add(gpu, one, two);
    lemma_run_add(gpu, one + two, three);
    lemma_registration(gpu, before, texture);
    let prepared = gpu.run(one);
    assert(backs(prepared, before)) by {
        if let Some(id) = before.resident_atlas_texture {
            assert(registered(prepared, Texture::Atlas(id)));
        }
    }
    lemma_growth(prepared, before, after, Buffer::PathSprites, paths as int);
    let large = prepared.run(two);
    assert(registered(large, texture));
    assert(backs(large, after)) by {
        if let Some(id) = before.resident_atlas_texture {
            assert(registered(large, Texture::Atlas(id)));
        }
    }
    lemma_path_sprite_draw(large, after, paths, viewport);
    lemma_same(large, large.run(three), after);
}

// ---- frames ------------------------------------------------------------------------------------

proof fn lemma_shapes(
    gpu: Gpu,
    renderer: Metal4Renderer,
    after: Metal4Renderer,
    scene: Scene,
    viewport: Size<i32>,
)
    requires
        gpu.encoding,
        backs(gpu, renderer),
        scene.fits(),
        after == (Metal4Renderer {
            shadows_capacity: grown(renderer.shadows_capacity, scene.shadows as int),
            path_sprites_capacity: if rasterizes(scene.paths@, viewport) {
                grown(renderer.path_sprites_capacity, scene.paths@.len() as int)
            } else {
                renderer.path_sprites_capacity
            },
            quads_capacity: grown(renderer.quads_capacity, scene.quads as int),
            underlines_capacity: grown(renderer.underlines_capacity, scene.underlines as int),
            ..renderer
        }),
    ensures
        gpu.run(renderer.shapes_plan(scene, viewport)).encoding,
        gpu.safe(renderer.shapes_plan(scene, viewport)),
        backs(gpu.run(renderer.shapes_plan(scene, viewport)), after),
{
    let one = renderer.shadows_plan(scene, viewport);
    let two = renderer.paths_from_plan(scene, viewport);
    let three = renderer.quads_plan(scene, viewport);
    let four = renderer.underlines_plan(scene, viewport);
    lemma_run_add(gpu, one, two);
    lemma_run_add(gpu, one + two, three);
    lemma_run_add(gpu, one + two + three, four);

    let shadowed = Metal4Renderer { shadows_capacity: after.shadows_capacity, ..renderer };
    if scene.shadows > 0 {
        lemma_instances(
            gpu,
            renderer,
            shadowed,
            Buffer::Shadows,
            Pipeline::Shadow,
            scene.shadows,
            viewport,
        );
    } else {
        lemma_renamed(gpu, renderer, shadowed);
    }
    let gpu = gpu.run(one);
    let composited = Metal4Renderer {
        path_sprites_capacity: after.path_sprites_capacity,
        ..shadowed
    };
    if rasterizes(scene.paths@, viewport) {
        lemma_path_sprites(gpu, shadowed, composited, scene.paths@.len() as usize, viewport);
    } else {
        lemma_renamed(gpu, shadowed, composited);
    }
    let gpu = gpu.run(two);
    let filled = Metal4Renderer { quads_capacity: after.quads_capacity, ..composited };
    if scene.quads > 0 {
        lemma_instances(
            gpu,
            composited,
            filled,
            Buffer::Quads,
            Pipeline::Quad,
            scene.quads,
            viewport,
        );
    } else {
        lemma_renamed(gpu, composited, filled);
    }
    let gpu = gpu.run(three);
    if scene.underlines > 0 {
        lemma_instances(
            gpu,
            filled,
            after,
            Buffer::Underlines,
            Pipeline::Underline,
            scene.underlines,
            viewport,
        );
    } else {
        lemma_renamed(gpu, filled, after);
    }
}

proof fn lemma_images(
    gpu: Gpu,
    renderer: Metal4Renderer,
    after: Metal4Renderer,
    scene: Scene,
    viewport: Size<i32>,
)
    requires
        gpu.encoding,
        backs(gpu, renderer),
        renderer.wf(),
        scene.fits(),
        renderer.drew_images(scene, after),
    ensures
        gpu.run(renderer.images_plan(scene, viewport)).encoding,
        gpu.safe(renderer.images_plan(scene, viewport)),
        backs(gpu.run(renderer.images_plan(scene, viewport)), after),
{
    let one = renderer.monochrome_plan(scene, viewport);
    let two = renderer.polychrome_plan(scene, viewport);
    let three = renderer.surfaces_plan(scene, viewport);
    lemma_run_add(gpu, one, two);
    lemma_run_add(gpu, one + two, three);

    let tinted = Metal4Renderer {
        monochrome_sprites_capacity: after.monochrome_sprites_capacity,
        resident_atlas_texture: renderer.atlas_after_monochrome(scene),
        ..renderer
    };
    if scene.monochrome_sprites@.len() > 0 {
        lemma_sprites(
            gpu,
            renderer,
            tinted,
            Buffer::MonochromeSprites,
            Pipeline::MonochromeSprite,
            scene.monochrome_sprites@,
            viewport,
        );
    } else {
        lemma_renamed(gpu, renderer, tinted);
    }
    let gpu = gpu.run(one);
    let coloured = Metal4Renderer {
        polychrome_sprites_capacity: after.polychrome_sprites_capacity,
        resident_atlas_texture: after.resident_atlas_texture,
        ..tinted
    };
    if scene.polychrome_sprites@.len() > 0 {
        lemma_sprites(
            gpu,
            tinted,
            coloured,
            Buffer::PolychromeSprites,
            Pipeline::PolychromeSprite,
            scene.polychrome_sprites@,
            viewport,
        );
    } else {
        lemma_renamed(gpu, tinted, coloured);
    }
    let gpu = gpu.run(two);
    if scene.surfaces@.len() > 0 {
        lemma_surfaces(gpu, coloured, coloured.frame_number, scene.surfaces@, viewport);
        let then = gpu.run(three);
        assert forall|buffer: Buffer| #[trigger] backs_buffer(then, after, buffer) by {
            assert(backs_buffer(then, coloured, buffer));
        }
    } else {
        lemma_renamed(gpu, coloured, after);
    }
}

/// A command that submits what was encoded, or says so.
spec fn is_inert(command: Command) -> bool {
    match command {
        Command::WaitForDrawable => true,
        Command::CommitFrame => true,
        Command::SignalDrawable => true,
        Command::Present => true,
        Command::SignalFrame(_) => true,
        _ => false,
    }
}

proof fn lemma_inert(gpu: Gpu, plan: Seq<Command>, count: nat)
    requires
        forall|i: int| 0 <= i < plan.len() ==> is_inert(#[trigger] plan[i]),
        count <= plan.len(),
        !gpu.encoding,
    ensures
        gpu.safe_first(plan, count),
        gpu.run_first(plan, count) == gpu,
    decreases count,
{
    if count > 0 {
        lemma_inert(gpu, plan, (count - 1) as nat);
        assert(is_inert(plan[count - 1]));
    }
}

proof fn lemma_primitives(
    gpu: Gpu,
    renderer: Metal4Renderer,
    after: Metal4Renderer,
    scene: Scene,
    viewport: Size<i32>,
)
    requires
        gpu.encoding,
        backs(gpu, renderer),
        renderer.wf(),
        scene.fits(),
        renderer.drew_primitives(scene, viewport, after),
    ensures
        gpu.run(renderer.primitives_plan(scene, viewport)).encoding,
        gpu.safe(renderer.primitives_plan(scene, viewport)),
        backs(gpu.run(renderer.primitives_plan(scene, viewport)), after),
{
    let shapes = renderer.shapes_plan(scene, viewport);
    let images = renderer.images_plan(scene, viewport);
    let shaped = Metal4Renderer {
        shadows_capacity: grown(renderer.shadows_capacity, scene.shadows as int),
        path_sprites_capacity: if rasterizes(scene.paths@, viewport) {
            grown(renderer.path_sprites_capacity, scene.paths@.len() as int)
        } else {
            renderer.path_sprites_capacity
        },
        quads_capacity: grown(renderer.quads_capacity, scene.quads as int),
        underlines_capacity: grown(renderer.underlines_capacity, scene.underlines as int),
        ..renderer
    };
    lemma_run_add(gpu, shapes, images);
    lemma_shapes(gpu, renderer, shaped, scene, viewport);
    assert(shaped.images_plan(scene, viewport) == images);
    lemma_images(gpu.run(shapes), shaped, after, scene, viewport);
}

proof fn lemma_pass(
    gpu: Gpu,
    renderer: Metal4Renderer,
    after: Metal4Renderer,
    scene: Scene,
    viewport: Size<i32>,
    target: Target,
    opaque: bool,
)
    requires
        !gpu.encoding,
        backs(gpu, renderer),
        renderer.wf(),
        scene.fits(),
        renderer.drew_primitives(scene, viewport, after),
    ensures
        !gpu.run(renderer.pass_plan(scene, viewport, target, opaque)).encoding,
        gpu.safe(renderer.pass_plan(scene, viewport, target, opaque)),
        backs(gpu.run(renderer.pass_plan(scene, viewport, target, opaque)), after),
{
    let begin = seq![
        Command::BeginPass { target, opaque },
        Command::SetViewport { width: viewport.width, height: viewport.height },
    ];
    let primitives = renderer.primitives_plan(scene, viewport);
    let end = seq![Command::EndPass, Command::EndCommandBuffer];
    lemma_begin(gpu, target, opaque, viewport);
    let inside = gpu.run(begin);
    lemma_run_add(gpu, begin, primitives);
    lemma_run_add(gpu, begin + primitives, end);
    lemma_moved(gpu, inside, renderer);
    lemma_primitives(inside, renderer, after, scene, viewport);
    lemma_end(inside.run(primitives));
    lemma_moved(inside.run(primitives), inside.run(primitives).run(end), after);
}

proof fn lemma_begin(gpu: Gpu, target: Target, opaque: bool, viewport: Size<i32>)
    requires
        !gpu.encoding,
    ensures
        ({
            let begin = seq![
                Command::BeginPass { target, opaque },
                Command::SetViewport { width: viewport.width, height: viewport.height },
            ];
            gpu.safe(begin) && gpu.run(begin) == (Gpu { encoding: true, ..gpu })
        }),
{
    reveal_with_fuel(Gpu::run_first, 3);
    reveal_with_fuel(Gpu::safe_first, 3);
}

proof fn lemma_end(gpu: Gpu)
    requires
        gpu.encoding,
    ensures
        ({
            let end = seq![Command::EndPass, Command::EndCommandBuffer];
            gpu.safe(end) && gpu.run(end) == (Gpu { encoding: false, ..gpu })
        }),
{
    reveal_with_fuel(Gpu::run_first, 3);
    reveal_with_fuel(Gpu::safe_first, 3);
}

/// What `backs` says does not go by the pass that is being encoded.
proof fn lemma_moved(a: Gpu, b: Gpu, renderer: Metal4Renderer)
    requires
        b == (Gpu { encoding: b.encoding, ..a }),
        backs(a, renderer),
    ensures
        backs(b, renderer),
{
    assert forall|buffer: Buffer| #[trigger] backs_buffer(b, renderer, buffer) by {
        assert(backs_buffer(a, renderer, buffer));
    }
}

proof fn lemma_frame(
    gpu: Gpu,
    renderer: Metal4Renderer,
    after: Metal4Renderer,
    scene: Scene,
    viewport: Size<i32>,
    target: Target,
    opaque: bool,
)
    requires
        !gpu.encoding,
        backs(gpu, renderer),
        renderer.wf(),
        renderer.frame_number < u64::MAX,
        scene.fits(),
        renderer.drew(scene, viewport, after),
    ensures
        !gpu.run(renderer.frame_plan(scene, viewport, target, opaque)).encoding,
        gpu.safe(renderer.frame_plan(scene, viewport, target, opaque)),
        backs(gpu.run(renderer.frame_plan(scene, viewport, target, opaque)), after),
{
    let opened = renderer.opened(scene, viewport);
    let opening = renderer.opening_plan(scene, viewport);
    lemma_run_add(gpu, opening, opened.pass_plan(scene, viewport, target, opaque));
    lemma_opening(gpu, renderer, scene, viewport);
    lemma_pass(gpu.run(opening), opened, after, scene, viewport, target, opaque);
}

/// The renderer that a call of `draw` leaves.
pub open spec fn drawn(
    renderer: Metal4Renderer,
    scene: Scene,
    drawable: Option<Size<i32>>,
    after: Metal4Renderer,
) -> bool {
    if renderer.has_layer && drawable is Some {
        renderer.drew(scene, drawable->0, after)
    } else {
        after == renderer
    }
}

/// A call of `draw` keeps to the rules of the GPU: whatever a draw reads is bound and resident,
/// nothing is written past the end of a buffer, and passes do not overlap. Afterwards the GPU is
/// again as the renderer takes it to be; in particular no textures of surfaces of earlier frames
/// stay in the residency set beside those of the last frame that had surfaces.
pub proof fn law_draw_is_safe(
    gpu: Gpu,
    renderer: Metal4Renderer,
    after: Metal4Renderer,
    scene: Scene,
    drawable: Option<Size<i32>>,
)
    requires
        !gpu.encoding,
        backs(gpu, renderer),
        renderer.wf(),
        renderer.frame_number < u64::MAX,
        scene.fits(),
        drawn(renderer, scene, drawable, after),
    ensures
        !gpu.run(renderer.draw_plan(scene, drawable)).encoding,
        gpu.safe(renderer.draw_plan(scene, drawable)),
        backs(gpu.run(renderer.draw_plan(scene, drawable)), after),
{
    reveal_with_fuel(Gpu::run_first, 2);
    reveal_with_fuel(Gpu::safe_first, 2);
    if renderer.has_layer && drawable is Some {
        let viewport = drawable->0;
        let frame = renderer.frame_plan(scene, viewport, Target::Drawable, renderer.opaque);
        let submission = seq![
            Command::WaitForDrawable,
            Command::CommitFrame,
            Command::SignalDrawable,
            Command::Present,
            Command::SignalFrame((renderer.frame_number + 1) as u64),
        ];
        lemma_frame(
            gpu,
            renderer,
            after,
            scene,
            viewport,
            Target::Drawable,
            renderer.opaque,
        );
        lemma_run_add(gpu, frame, submission);
        lemma_inert(gpu.run(frame), submission, submission.len());
    }
}

/// The same of an offscreen frame.
pub proof fn law_image_is_safe(
    gpu: Gpu,
    renderer: Metal4Renderer,
    after: Metal4Renderer,
    scene: Scene,
    size: Size<i32>,
)
    requires
        !gpu.encoding,
        backs(gpu, renderer),
        renderer.wf(),
        renderer.frame_number < u64::MAX,
        scene.fits(),
        renderer.drew(scene, size, after),
    ensures
        !gpu.run(renderer.image_plan(scene, size)).encoding,
        gpu.safe(renderer.image_plan(scene, size)),
        backs(gpu.run(renderer.image_plan(scene, size)), after),
{
    let create = seq![
        Command::CreateOffscreen { width: size.width, height: size.height },
        Command::AddTexture(Texture::Offscreen),
        Command::CommitResidency,
    ];
    let frame = renderer.frame_plan(scene, size, Target::Offscreen, true);
    let submission = seq![
        Command::CommitFrame,
        Command::SignalFrame((renderer.frame_number + 1) as u64),
    ];
    lemma_run_add(gpu, create, frame);
    lemma_run_add(gpu, create + frame, submission);
    lemma_offscreen(gpu, renderer, size);
    let created = gpu.run(create);
    lemma_frame(created, renderer, after, scene, size, Target::Offscreen, true);
    lemma_inert(created.run(frame), submission, submission.len());
}

proof fn lemma_offscreen(gpu: Gpu, renderer: Metal4Renderer, size: Size<i32>)
    requires
        backs(gpu, renderer),
    ensures
        ({
            let create = seq![
                Command::CreateOffscreen { width: size.width, height: size.height },
                Command::AddTexture(Texture::Offscreen),
                Command::CommitResidency,
            ];
            gpu.safe(create) && backs(gpu.run(create), renderer) && gpu.run(create).encoding
                == gpu.encoding
        }),
{
    reveal_with_fuel(Gpu::run_first, 4);
    reveal_with_fuel(Gpu::safe_first, 4);
    let created = gpu.run(
        seq![
            Command::CreateOffscreen { width: size.width, height: size.height },
            Command::AddTexture(Texture::Offscreen),
            Command::CommitResidency,
        ],
    );
    assert forall|buffer: Buffer| #[trigger] backs_buffer(created, renderer, buffer) by {
        assert(backs_buffer(gpu, renderer, buffer));
    }
    if let Some(id) = renderer.resident_atlas_texture {
        assert(registered(gpu, Texture::Atlas(id)));
    }
}

// ---- setup -------------------------------------------------------------------------------------

proof fn lemma_buffer(gpu: Gpu, buffer: Buffer, capacity: usize)
    ensures
        gpu.safe(buffer_plan(buffer, capacity)),
        gpu.run(buffer_plan(buffer, capacity)) == (Gpu {
            staged: gpu.staged.insert(Resource::Buffer(buffer)),
            resident: gpu.staged.insert(Resource::Buffer(buffer)),
            capacity: gpu.capacity.insert(buffer, capacity as nat),
            ..gpu
        }),
{
    reveal_with_fuel(Gpu::run_first, 4);
    reveal_with_fuel(Gpu::safe_first, 4);
}

proof fn lemma_device()
    ensures
        !Gpu::blank().run(device_plan()).encoding,
        ({
            let then = Gpu::blank().run(device_plan());
            &&& Gpu::blank().safe(device_plan())
            &&& forall|buffer: Buffer| #[trigger]
                then.staged.contains(Resource::Buffer(buffer)) == (buffer is UnitVertices || buffer
                    is ViewportSize || buffer is Quads)
            &&& forall|texture: Texture| !#[trigger] then.staged.contains(
                Resource::Texture(texture),
            )
            &&& then.capacity == map![
                Buffer::UnitVertices => 6nat,
                Buffer::ViewportSize => 1nat,
                Buffer::Quads => MAX_QUADS_PER_FRAME_INITIAL as nat,
            ]
        }),
{
    reveal_with_fuel(Gpu::run_first, 15);
    reveal_with_fuel(Gpu::safe_first, 15);
}

proof fn lemma_setup_inert(gpu: Gpu, layer: Option<bool>)
    ensures
        gpu.safe(layer_plan(layer)),
        gpu.run(layer_plan(layer)) == gpu,
        gpu.safe(pipelines_plan()),
        gpu.run(pipelines_plan()) == gpu,
        gpu.safe(seq![Command::CreateTextureCache]),
        gpu.run(seq![Command::CreateTextureCache]) == gpu,
{
    reveal_with_fuel(Gpu::run_first, 11);
    reveal_with_fuel(Gpu::safe_first, 11);
}

/// The setup keeps to the rules of the GPU and leaves it as a new renderer takes it to be.
pub proof fn law_setup_is_safe(renderer: Metal4Renderer, layer: Option<bool>, opaque: bool)
    requires
        is_new(renderer, layer is Some, opaque),
    ensures
        !Gpu::blank().run(setup_plan(layer)).encoding,
        Gpu::blank().safe(setup_plan(layer)),
        backs(Gpu::blank().run(setup_plan(layer)), renderer),
{
    let gpu = Gpu::blank();
    let one = device_plan();
    let two = layer_plan(layer);
    let three = buffers_plan();
    let four = pipelines_plan();
    lemma_run_add(gpu, one, two);
    lemma_run_add(gpu, one + two, three);
    lemma_run_add(gpu, one + two + three, four);
    lemma_device();
    let started = gpu.run(one);
    lemma_setup_inert(started, layer);
    lemma_buffers(started);
    lemma_setup_inert(started.run(three), layer);
    let then = started.run(three);
    assert forall|buffer: Buffer| #[trigger] backs_buffer(then, renderer, buffer) by {
    }
}

proof fn lemma_buffers(gpu: Gpu)
    ensures
        gpu.run(buffers_plan()).encoding == gpu.encoding,
        gpu.safe(buffers_plan()),
        gpu.run(buffers_plan()).resident == gpu.run(buffers_plan()).staged,
        gpu.run(buffers_plan()).staged == gpu.staged.insert(
            Resource::Buffer(Buffer::Underlines),
        ).insert(Resource::Buffer(Buffer::Shadows)).insert(
            Resource::Buffer(Buffer::MonochromeSprites),
        ).insert(Resource::Buffer(Buffer::PolychromeSprites)).insert(
            Resource::Buffer(Buffer::PathVertices),
        ).insert(Resource::Buffer(Buffer::PathSprites)).insert(
            Resource::Buffer(Buffer::SurfaceBounds),
        ).insert(Resource::Buffer(Buffer::AtlasSize)),
        gpu.run(buffers_plan()).capacity == gpu.capacity.insert(
            Buffer::Underlines,
            MAX_QUADS_PER_FRAME_INITIAL as nat,
        ).insert(Buffer::Shadows, MAX_QUADS_PER_FRAME_INITIAL as nat).insert(
            Buffer::MonochromeSprites,
            MAX_QUADS_PER_FRAME_INITIAL as nat,
        ).insert(Buffer::PolychromeSprites, MAX_QUADS_PER_FRAME_INITIAL as nat).insert(
            Buffer::PathVertices,
            MAX_PATH_VERTICES_INITIAL as nat,
        ).insert(Buffer::PathSprites, MAX_QUADS_PER_FRAME_INITIAL as nat).insert(
            Buffer::SurfaceBounds,
            1,
        ).insert(Buffer::AtlasSize, 1),
{
    let a = buffer_plan(Buffer::Underlines, MAX_QUADS_PER_FRAME_INITIAL);
    let b = buffer_plan(Buffer::Shadows, MAX_QUADS_PER_FRAME_INITIAL);
    let c = buffer_plan(Buffer::MonochromeSprites, MAX_QUADS_PER_FRAME_INITIAL);
    let d = buffer_plan(Buffer::PolychromeSprites, MAX_QUADS_PER_FRAME_INITIAL);
    let e = buffer_plan(Buffer::PathVertices, MAX_PATH_VERTICES_INITIAL);
    let f = buffer_plan(Buffer::PathSprites, MAX_QUADS_PER_FRAME_INITIAL);
    let g = buffer_plan(Buffer::SurfaceBounds, 1);
    let h = seq![Command::CreateTextureCache];
    let i = buffer_plan(Buffer::AtlasSize, 1);
    lemma_run_add(gpu, a, b);
    lemma_run_add(gpu, a + b, c);
    lemma_run_add(gpu, a + b + c, d);
    lemma_run_add(gpu, a + b + c + d, e);
    lemma_run_add(gpu, a + b + c + d + e, f);
    lemma_run_add(gpu, a + b + c + d + e + f, g);
    lemma_run_add(gpu, a + b + c + d + e + f + g, h);
    lemma_run_add(gpu, a + b + c + d + e + f + g + h, i);
    lemma_buffer(gpu, Buffer::Underlines, MAX_QUADS_PER_FRAME_INITIAL);
    let gpu = gpu.run(a);
    lemma_buffer(gpu, Buffer::Shadows, MAX_QUADS_PER_FRAME_INITIAL);
    let gpu = gpu.run(b);
    lemma_buffer(gpu, Buffer::MonochromeSprites, MAX_QUADS_PER_FRAME_INITIAL);
    let gpu = gpu.run(c);
    lemma_buffer(gpu, Buffer::PolychromeSprites, MAX_QUADS_PER_FRAME_INITIAL);
    let gpu = gpu.run(d);
    lemma_buffer(gpu, Buffer::PathVertices, MAX_PATH_VERTICES_INITIAL);
    let gpu = gpu.run(e);
    lemma_buffer(gpu, Buffer::PathSprites, MAX_QUADS_PER_FRAME_INITIAL);
    let gpu = gpu.run(f);
    lemma_buffer(gpu, Buffer::SurfaceBounds, 1);
    let gpu = gpu.run(g);
    lemma_setup_inert(gpu, None);
    lemma_buffer(gpu, Buffer::AtlasSize, 1);
}

} // verus!
