//! The Metal 4 renderer, as far as it decides anything: which buffers to grow, which resources to
//! make resident, what to bind, and what to draw in which order.
//!
//! Every method appends the commands that it decided on to a list. The platform performs them.
//! Frames are fully serialized: a frame starts by waiting for the one before it.

use crate::geometry::{Bounds, Point, Real32, Size};
use crate::renderer::gpu::{
    AtlasTextureId, Buffer, Command, Pipeline, Plane, Report, Target, Texture,
};
use vstd::prelude::*;

verus! {

/// How many instances of a primitive the buffers hold at first.
pub const MAX_QUADS_PER_FRAME_INITIAL: usize = 256;

/// How many path vertices the buffer holds at first.
pub const MAX_PATH_VERTICES_INITIAL: usize = 768;

/// Samples per pixel of the path texture.
pub const PATH_SAMPLE_COUNT: u32 = 4;

/// The pixel format of the video frames that can be drawn: bi-planar full-range 4:2:0 YCbCr.
pub const SURFACE_PIXEL_FORMAT: u32 = 0x3432_3066;

/// A video frame to draw, and what came of making textures of its planes.
#[derive(Clone, Copy, Debug)]
pub struct PaintSurface {
    pub pixel_format: u32,
    pub width: i32,
    pub height: i32,
    pub luma: bool,
    pub chroma: bool,
}

/// A colour by hue, saturation, lightness and alpha.
#[derive(Clone, Copy, Debug)]
pub struct Hsla {
    pub h: Real32,
    pub s: Real32,
    pub l: Real32,
    pub a: Real32,
}

/// A corner of one of the triangles of a path.
#[derive(Clone, Copy, Debug)]
pub struct PathVertex {
    pub xy_position: Point<Real32>,
    pub st_position: Point<Real32>,
}

#[derive(Clone, Debug)]
pub struct Path {
    pub vertices: Vec<PathVertex>,
    pub color: Hsla,
    /// The bounds of the path within its content mask.
    pub clipped_bounds: Bounds<Real32>,
}

/// What the rasterization of a path reads of each vertex.
#[derive(Clone, Copy, Debug)]
pub struct PathRasterizationVertex {
    pub xy_position: Point<Real32>,
    pub st_position: Point<Real32>,
    pub color: Hsla,
    pub bounds: Bounds<Real32>,
}

/// The part of the path texture that is composited for a path.
#[derive(Clone, Copy, Debug)]
pub struct PathSprite {
    pub bounds: Bounds<Real32>,
}

/// What a frame draws, as far as the renderer decides by it.
#[derive(Clone, Debug)]
pub struct Scene {
    /// The number of shadows.
    pub shadows: usize,
    pub paths: Vec<Path>,
    /// The number of quads.
    pub quads: usize,
    /// The number of underlines.
    pub underlines: usize,
    /// For each sprite the atlas texture that holds its tile.
    pub monochrome_sprites: Vec<AtlasTextureId>,
    pub polychrome_sprites: Vec<AtlasTextureId>,
    pub surfaces: Vec<PaintSurface>,
}

impl Path {
    /// The vertices of the path, each with what the path has for all of them.
    pub open spec fn rasterization_vertices(self) -> Seq<PathRasterizationVertex> {
        self.vertices@.map_values(
            |vertex: PathVertex|
                PathRasterizationVertex {
                    xy_position: vertex.xy_position,
                    st_position: vertex.st_position,
                    color: self.color,
                    bounds: self.clipped_bounds,
                },
        )
    }
}

/// The vertices of all paths, path after path.
pub open spec fn all_vertices(paths: Seq<Path>) -> Seq<PathRasterizationVertex>
    decreases paths.len(),
{
    if paths.len() == 0 {
        seq![]
    } else {
        all_vertices(paths.drop_last()) + paths.last().rasterization_vertices()
    }
}

impl Scene {
    /// The primitives of the scene fit in memory: no list is longer than an object can be.
    pub open spec fn fits(self) -> bool {
        &&& self.shadows <= isize::MAX
        &&& self.quads <= isize::MAX
        &&& self.underlines <= isize::MAX
        &&& self.paths@.len() <= isize::MAX
        &&& all_vertices(self.paths@).len() <= isize::MAX
        &&& self.monochrome_sprites@.len() <= isize::MAX
        &&& self.polychrome_sprites@.len() <= isize::MAX
    }
}

/// The renderer's state between frames.
#[derive(Clone, Debug)]
pub struct Metal4Renderer {
    /// Whether there is a layer to draw to.
    pub has_layer: bool,
    pub opaque: bool,
    pub quads_capacity: usize,
    pub underlines_capacity: usize,
    pub shadows_capacity: usize,
    pub monochrome_sprites_capacity: usize,
    pub polychrome_sprites_capacity: usize,
    pub path_vertices_capacity: usize,
    pub path_sprites_capacity: usize,
    /// The size that the path textures were made for, if there are any.
    pub path_intermediate_size: Option<(i32, i32)>,
    /// The surface textures that the last frame with surfaces made resident.
    pub surface_textures_in_residency: Vec<Texture>,
    /// The atlas texture that was last made resident.
    pub resident_atlas_texture: Option<AtlasTextureId>,
    pub frame_number: u64,
}

// ---- capacities -------------------------------------------------------------------------------

/// `from`, doubled until it is at least `count`.
pub open spec fn doubled(from: nat, count: nat) -> nat
    decreases 2 * count - from,
{
    if from == 0 || from >= count {
        from
    } else {
        doubled(2 * from, count)
    }
}

/// The smallest power of two that is at least `count`.
pub open spec fn next_power_of_two(count: nat) -> nat {
    doubled(1, count)
}

/// How many items a buffer holds after it was grown for `count` of them.
pub open spec fn grown(capacity: usize, count: int) -> usize {
    if count > capacity {
        next_power_of_two(count as nat) as usize
    } else {
        capacity
    }
}

proof fn lemma_doubled_bound(from: nat, count: nat)
    requires
        0 < from,
        from < 2 * count || from <= 1,
    ensures
        doubled(from, count) >= count,
        doubled(from, count) >= from,
        doubled(from, count) < 2 * count || doubled(from, count) == 1,
    decreases 2 * count - from,
{
    if from < count {
        lemma_doubled_bound(2 * from, count);
    }
}

/// A buffer that was grown holds at least what it was grown for, and a buffer never shrinks.
pub proof fn law_grown_buffer_is_large_enough(capacity: usize, count: int)
    requires
        0 <= count <= isize::MAX,
    ensures
        grown(capacity, count) >= count,
        grown(capacity, count) >= capacity,
        count > capacity ==> grown(capacity, count) as nat == next_power_of_two(count as nat),
{
    if count > capacity {
        lemma_doubled_bound(1, count as nat);
    }
}

fn capacity_for(count: usize) -> (r: usize)
    requires
        0 < count <= isize::MAX,
    ensures
        r as nat == next_power_of_two(count as nat),
{
    let mut capacity: usize = 1;
    proof {
        lemma_doubled_bound(1, count as nat);
    }
    while capacity < count
        invariant
            0 < capacity,
            count <= isize::MAX,
            capacity < 2 * count,
            doubled(capacity as nat, count as nat) == next_power_of_two(count as nat),
        decreases 2 * count - capacity,
    {
        capacity = 2 * capacity;
    }
    capacity
}

// ---- the plans ---------------------------------------------------------------------------------

/// Replaces a buffer that is too small.
pub open spec fn growth(buffer: Buffer, capacity: usize, count: int) -> Seq<Command> {
    if count > capacity {
        seq![
            Command::GrowBuffer { buffer, capacity: grown(capacity, count) },
            Command::CommitResidency,
        ]
    } else {
        seq![]
    }
}

/// Writes what the shaders of a primitive that samples no texture read, binds it, and draws.
pub open spec fn instance_draw_plan(
    buffer: Buffer,
    pipeline: Pipeline,
    count: usize,
    viewport: Size<i32>,
) -> Seq<Command> {
    seq![
        Command::WriteItems { buffer, count },
        Command::WriteViewportSize { width: viewport.width, height: viewport.height },
        Command::BindBuffer { buffer: Buffer::UnitVertices, index: 0 },
        Command::BindBuffer { buffer, index: 1 },
        Command::BindBuffer { buffer: Buffer::ViewportSize, index: 2 },
        Command::UseArgumentTable,
        Command::UsePipeline(pipeline),
        Command::Draw { vertices: 6, instances: count },
    ]
}

/// Draws `count` instances of a primitive that samples no texture.
pub open spec fn instances_plan(
    buffer: Buffer,
    pipeline: Pipeline,
    capacity: usize,
    count: usize,
    viewport: Size<i32>,
) -> Seq<Command> {
    growth(buffer, capacity, count as int) + instance_draw_plan(buffer, pipeline, count, viewport)
}

/// Not all sprites are in the texture of the first one.
pub open spec fn mixed(sprites: Seq<AtlasTextureId>) -> bool {
    exists|i: int| 0 <= i < sprites.len() && #[trigger] sprites[i] != sprites[0]
}

/// The preparation of the atlas texture: a report where it does not hold all sprites, and its
/// residency where it was not the last to be made resident.
pub open spec fn atlas_plan(
    resident: Option<AtlasTextureId>,
    sprites: Seq<AtlasTextureId>,
) -> Seq<Command> {
    (if mixed(sprites) {
        seq![Command::Report(Report::MixedAtlasTextures(sprites[0]))]
    } else {
        seq![]
    }) + (if resident != Some(sprites[0]) {
        registration(Texture::Atlas(sprites[0]))
    } else {
        seq![]
    })
}

/// Writes what the shaders of sprites read, binds it, and draws.
pub open spec fn sprite_draw_plan(
    buffer: Buffer,
    pipeline: Pipeline,
    texture: Texture,
    count: usize,
    viewport: Size<i32>,
) -> Seq<Command> {
    seq![
        Command::WriteItems { buffer, count },
        Command::WriteViewportSize { width: viewport.width, height: viewport.height },
        Command::WriteTextureSize(texture),
        Command::BindBuffer { buffer: Buffer::UnitVertices, index: 0 },
        Command::BindBuffer { buffer, index: 1 },
        Command::BindBuffer { buffer: Buffer::ViewportSize, index: 2 },
        Command::BindBuffer { buffer: Buffer::AtlasSize, index: 3 },
        Command::BindTexture { texture, index: 4 },
        Command::UseArgumentTable,
        Command::UsePipeline(pipeline),
        Command::Draw { vertices: 6, instances: count },
    ]
}

/// Draws sprites. All of them sample the texture of the first one.
pub open spec fn sprites_plan(
    buffer: Buffer,
    pipeline: Pipeline,
    capacity: usize,
    resident: Option<AtlasTextureId>,
    sprites: Seq<AtlasTextureId>,
    viewport: Size<i32>,
) -> Seq<Command> {
    atlas_plan(resident, sprites) + growth(buffer, capacity, sprites.len() as int)
        + sprite_draw_plan(
        buffer,
        pipeline,
        Texture::Atlas(sprites[0]),
        sprites.len() as usize,
        viewport,
    )
}

/// Both dimensions are positive.
pub open spec fn drawable_size(size: Size<i32>) -> bool {
    size.width > 0 && size.height > 0
}

/// The size of the path textures after they were made for a viewport.
pub open spec fn path_size_for(viewport: Size<i32>) -> Option<(i32, i32)> {
    if drawable_size(viewport) {
        Some((viewport.width, viewport.height))
    } else {
        None
    }
}

/// Makes the path textures fit the viewport.
pub open spec fn path_textures_plan(
    current: Option<(i32, i32)>,
    viewport: Size<i32>,
) -> Seq<Command> {
    if current == Some((viewport.width, viewport.height)) {
        seq![]
    } else if drawable_size(viewport) {
        seq![
            Command::CreatePathTextures {
                width: viewport.width,
                height: viewport.height,
                sample_count: PATH_SAMPLE_COUNT,
            },
        ]
    } else {
        seq![Command::DropPathTextures]
    }
}

/// The paths are rasterized in this frame: there are some, they have vertices, and the viewport
/// has an area.
pub open spec fn rasterizes(paths: Seq<Path>, viewport: Size<i32>) -> bool {
    paths.len() > 0 && drawable_size(viewport) && all_vertices(paths).len() > 0
}

/// Writes what the rasterization of paths reads, and rasterizes them in a pass of its own.
pub open spec fn path_draw_plan(vertices: usize, viewport: Size<i32>) -> Seq<Command> {
    seq![
        Command::WriteItems { buffer: Buffer::PathVertices, count: vertices },
        Command::WriteViewportSize { width: viewport.width, height: viewport.height },
        Command::BeginPathPass,
        Command::BindBuffer { buffer: Buffer::PathVertices, index: 0 },
        Command::BindBuffer { buffer: Buffer::ViewportSize, index: 1 },
        Command::UseArgumentTable,
        Command::UsePipeline(Pipeline::PathRasterization),
        Command::Draw { vertices, instances: 1 },
        Command::EndPass,
    ]
}

/// Rasterizes all paths into the path texture.
pub open spec fn path_pass_plan(
    capacity: usize,
    vertices: usize,
    viewport: Size<i32>,
) -> Seq<Command> {
    growth(Buffer::PathVertices, capacity, vertices as int) + path_draw_plan(vertices, viewport)
}

/// Writes what the sprites of paths read, binds it and the path texture, and draws.
pub open spec fn path_sprite_draw_plan(paths: usize, viewport: Size<i32>) -> Seq<Command> {
    seq![
        Command::WriteItems { buffer: Buffer::PathSprites, count: paths },
        Command::WriteViewportSize { width: viewport.width, height: viewport.height },
        Command::BindBuffer { buffer: Buffer::UnitVertices, index: 0 },
        Command::BindBuffer { buffer: Buffer::PathSprites, index: 1 },
        Command::BindBuffer { buffer: Buffer::ViewportSize, index: 2 },
        Command::BindTexture { texture: Texture::PathIntermediate, index: 4 },
        Command::UseArgumentTable,
        Command::UsePipeline(Pipeline::PathSprite),
        Command::Draw { vertices: 6, instances: paths },
    ]
}

/// Makes a texture resident.
pub open spec fn registration(texture: Texture) -> Seq<Command> {
    seq![Command::AddTexture(texture), Command::CommitResidency]
}

/// Composites the path texture, one sprite per path.
pub open spec fn path_sprites_plan(
    capacity: usize,
    paths: usize,
    viewport: Size<i32>,
) -> Seq<Command> {
    registration(Texture::PathIntermediate) + growth(
        Buffer::PathSprites,
        capacity,
        paths as int,
    ) + path_sprite_draw_plan(paths, viewport)
}

/// A surface that is drawn: its format is supported and both its planes are textures.
pub open spec fn is_drawn(surface: PaintSurface) -> bool {
    surface.pixel_format == SURFACE_PIXEL_FORMAT && surface.luma && surface.chroma
}

pub open spec fn plane_of(frame: u64, surface: usize, plane: Plane) -> Texture {
    Texture::Surface { frame, surface, plane }
}

/// Draws one surface, or reports why it is left out.
pub open spec fn surface_plan(frame: u64, index: usize, surface: PaintSurface) -> Seq<Command> {
    if surface.pixel_format != SURFACE_PIXEL_FORMAT {
        seq![Command::Report(Report::UnsupportedSurface)]
    } else if !surface.luma {
        seq![Command::Report(Report::NoSurfaceTexture(Plane::Luma))]
    } else if !surface.chroma {
        seq![Command::Report(Report::NoSurfaceTexture(Plane::Chroma))]
    } else {
        let luma = plane_of(frame, index, Plane::Luma);
        let chroma = plane_of(frame, index, Plane::Chroma);
        seq![
            Command::AddTexture(luma),
            Command::AddTexture(chroma),
            Command::CommitResidency,
            Command::WriteItems { buffer: Buffer::SurfaceBounds, count: 1 },
            Command::WriteAtlasSize { width: surface.width, height: surface.height },
            Command::BindBuffer { buffer: Buffer::UnitVertices, index: 0 },
            Command::BindBuffer { buffer: Buffer::SurfaceBounds, index: 1 },
            Command::BindBuffer { buffer: Buffer::ViewportSize, index: 2 },
            Command::BindBuffer { buffer: Buffer::AtlasSize, index: 3 },
            Command::BindTexture { texture: luma, index: 4 },
            Command::BindTexture { texture: chroma, index: 5 },
            Command::UseArgumentTable,
            Command::UsePipeline(Pipeline::Surface),
            Command::Draw { vertices: 6, instances: 1 },
        ]
    }
}

/// Draws surfaces one after the other.
pub open spec fn each_surface_plan(frame: u64, surfaces: Seq<PaintSurface>) -> Seq<Command>
    decreases surfaces.len(),
{
    if surfaces.len() == 0 {
        seq![]
    } else {
        each_surface_plan(frame, surfaces.drop_last()) + surface_plan(
            frame,
            (surfaces.len() - 1) as usize,
            surfaces.last(),
        )
    }
}

/// The textures of the surfaces that are drawn.
pub open spec fn surface_textures(frame: u64, surfaces: Seq<PaintSurface>) -> Seq<Texture>
    decreases surfaces.len(),
{
    if surfaces.len() == 0 {
        seq![]
    } else {
        let before = surface_textures(frame, surfaces.drop_last());
        let index = (surfaces.len() - 1) as usize;
        if is_drawn(surfaces.last()) {
            before + seq![
                plane_of(frame, index, Plane::Luma),
                plane_of(frame, index, Plane::Chroma),
            ]
        } else {
            before
        }
    }
}

/// Takes the textures of an earlier frame out of the residency set.
pub open spec fn removals(textures: Seq<Texture>) -> Seq<Command> {
    textures.map_values(|texture: Texture| Command::RemoveTexture(texture))
}

pub open spec fn surfaces_plan(
    frame: u64,
    stale: Seq<Texture>,
    surfaces: Seq<PaintSurface>,
    viewport: Size<i32>,
) -> Seq<Command> {
    if surfaces.len() == 0 {
        seq![]
    } else {
        removals(stale) + seq![
            Command::WriteViewportSize { width: viewport.width, height: viewport.height },
        ] + each_surface_plan(frame, surfaces)
    }
}

/// A texture of a surface of a frame up to the given one.
pub open spec fn was_drawn(texture: Texture, frame: u64) -> bool {
    texture matches Texture::Surface { frame: of, .. } && of <= frame
}

/// The textures of a frame's surfaces are of that frame.
pub proof fn lemma_surface_textures(frame: u64, surfaces: Seq<PaintSurface>)
    ensures
        forall|i: int|
            0 <= i < surface_textures(frame, surfaces).len() ==> was_drawn(
                #[trigger] surface_textures(frame, surfaces)[i],
                frame,
            ),
    decreases surfaces.len(),
{
    if surfaces.len() > 0 {
        let before = surface_textures(frame, surfaces.drop_last());
        lemma_surface_textures(frame, surfaces.drop_last());
        assert forall|i: int| 0 <= i < surface_textures(frame, surfaces).len() implies was_drawn(
            #[trigger] surface_textures(frame, surfaces)[i],
            frame,
        ) by {
            if i < before.len() {
                assert(surface_textures(frame, surfaces)[i] == before[i]);
            }
        }
    }
}

impl Metal4Renderer {
    /// Path textures exist only for a size with an area, and what is listed as a surface's texture
    /// was made for a frame that was drawn.
    pub open spec fn wf(self) -> bool {
        &&& self.path_intermediate_size matches Some(size) ==> size.0 > 0 && size.1 > 0
        &&& forall|i: int|
            0 <= i < self.surface_textures_in_residency@.len() ==> was_drawn(
                #[trigger] self.surface_textures_in_residency@[i],
                self.frame_number,
            )
    }

    /// The start of a frame: it waits for the frame before it.
    pub open spec fn begin_plan(self) -> Seq<Command> {
        if self.frame_number > 0 {
            seq![
                Command::WaitForFrame(self.frame_number),
                Command::ResetAllocator,
                Command::BeginCommandBuffer,
            ]
        } else {
            seq![Command::ResetAllocator, Command::BeginCommandBuffer]
        }
    }

    /// The first part of a frame, up to the rasterization of the paths.
    pub open spec fn opening_plan(self, scene: Scene, viewport: Size<i32>) -> Seq<Command> {
        self.begin_plan() + self.paths_to_plan(scene.paths@, viewport)
    }

    pub open spec fn paths_to_plan(self, paths: Seq<Path>, viewport: Size<i32>) -> Seq<Command> {
        if paths.len() == 0 {
            seq![]
        } else {
            path_textures_plan(self.path_intermediate_size, viewport) + (if rasterizes(
                paths,
                viewport,
            ) {
                path_pass_plan(
                    self.path_vertices_capacity,
                    all_vertices(paths).len() as usize,
                    viewport,
                )
            } else {
                seq![]
            })
        }
    }

    pub open spec fn shadows_plan(self, scene: Scene, viewport: Size<i32>) -> Seq<Command> {
        if scene.shadows == 0 {
            seq![]
        } else {
            instances_plan(
                Buffer::Shadows,
                Pipeline::Shadow,
                self.shadows_capacity,
                scene.shadows,
                viewport,
            )
        }
    }

    pub open spec fn paths_from_plan(self, scene: Scene, viewport: Size<i32>) -> Seq<Command> {
        if rasterizes(scene.paths@, viewport) {
            path_sprites_plan(
                self.path_sprites_capacity,
                scene.paths@.len() as usize,
                viewport,
            )
        } else {
            seq![]
        }
    }

    pub open spec fn quads_plan(self, scene: Scene, viewport: Size<i32>) -> Seq<Command> {
        if scene.quads == 0 {
            seq![]
        } else {
            instances_plan(
                Buffer::Quads,
                Pipeline::Quad,
                self.quads_capacity,
                scene.quads,
                viewport,
            )
        }
    }

    pub open spec fn underlines_plan(self, scene: Scene, viewport: Size<i32>) -> Seq<Command> {
        if scene.underlines == 0 {
            seq![]
        } else {
            instances_plan(
                Buffer::Underlines,
                Pipeline::Underline,
                self.underlines_capacity,
                scene.underlines,
                viewport,
            )
        }
    }

    pub open spec fn monochrome_plan(self, scene: Scene, viewport: Size<i32>) -> Seq<Command> {
        if scene.monochrome_sprites@.len() == 0 {
            seq![]
        } else {
            sprites_plan(
                Buffer::MonochromeSprites,
                Pipeline::MonochromeSprite,
                self.monochrome_sprites_capacity,
                self.resident_atlas_texture,
                scene.monochrome_sprites@,
                viewport,
            )
        }
    }

    /// The atlas texture that was last made resident, once the monochrome sprites were drawn.
    pub open spec fn atlas_after_monochrome(self, scene: Scene) -> Option<AtlasTextureId> {
        if scene.monochrome_sprites@.len() == 0 {
            self.resident_atlas_texture
        } else {
            Some(scene.monochrome_sprites@[0])
        }
    }

    pub open spec fn polychrome_plan(self, scene: Scene, viewport: Size<i32>) -> Seq<Command> {
        if scene.polychrome_sprites@.len() == 0 {
            seq![]
        } else {
            sprites_plan(
                Buffer::PolychromeSprites,
                Pipeline::PolychromeSprite,
                self.polychrome_sprites_capacity,
                self.atlas_after_monochrome(scene),
                scene.polychrome_sprites@,
                viewport,
            )
        }
    }

    pub open spec fn surfaces_plan(self, scene: Scene, viewport: Size<i32>) -> Seq<Command> {
        surfaces_plan(
            self.frame_number,
            self.surface_textures_in_residency@,
            scene.surfaces@,
            viewport,
        )
    }

    /// The primitives that sample no texture of the atlas or of a surface.
    pub open spec fn shapes_plan(self, scene: Scene, viewport: Size<i32>) -> Seq<Command> {
        self.shadows_plan(scene, viewport) + self.paths_from_plan(scene, viewport)
            + self.quads_plan(scene, viewport) + self.underlines_plan(scene, viewport)
    }

    /// The primitives that do.
    pub open spec fn images_plan(self, scene: Scene, viewport: Size<i32>) -> Seq<Command> {
        self.monochrome_plan(scene, viewport) + self.polychrome_plan(scene, viewport)
            + self.surfaces_plan(scene, viewport)
    }

    /// The primitives of a scene. The order of their kinds is fixed.
    pub open spec fn primitives_plan(self, scene: Scene, viewport: Size<i32>) -> Seq<Command> {
        self.shapes_plan(scene, viewport) + self.images_plan(scene, viewport)
    }

    /// The renderer after sprites and surfaces were drawn.
    pub open spec fn drew_images(self, scene: Scene, after: Metal4Renderer) -> bool {
        &&& after.surface_textures_in_residency@ == if scene.surfaces@.len() == 0 {
            self.surface_textures_in_residency@
        } else {
            surface_textures(self.frame_number, scene.surfaces@)
        }
        &&& after == Metal4Renderer {
            monochrome_sprites_capacity: grown(
                self.monochrome_sprites_capacity,
                scene.monochrome_sprites@.len() as int,
            ),
            polychrome_sprites_capacity: grown(
                self.polychrome_sprites_capacity,
                scene.polychrome_sprites@.len() as int,
            ),
            resident_atlas_texture: if scene.polychrome_sprites@.len() == 0 {
                self.atlas_after_monochrome(scene)
            } else {
                Some(scene.polychrome_sprites@[0])
            },
            surface_textures_in_residency: after.surface_textures_in_residency,
            ..self
        }
    }

    /// The renderer after the primitives were drawn.
    pub open spec fn drew_primitives(
        self,
        scene: Scene,
        viewport: Size<i32>,
        after: Metal4Renderer,
    ) -> bool {
        (Metal4Renderer {
            shadows_capacity: grown(self.shadows_capacity, scene.shadows as int),
            path_sprites_capacity: if rasterizes(scene.paths@, viewport) {
                grown(self.path_sprites_capacity, scene.paths@.len() as int)
            } else {
                self.path_sprites_capacity
            },
            quads_capacity: grown(self.quads_capacity, scene.quads as int),
            underlines_capacity: grown(self.underlines_capacity, scene.underlines as int),
            ..self
        }).drew_images(scene, after)
    }

    /// The renderer once the paths of the next frame were rasterized.
    pub open spec fn opened(self, scene: Scene, viewport: Size<i32>) -> Metal4Renderer {
        Metal4Renderer {
            path_vertices_capacity: if rasterizes(scene.paths@, viewport) {
                grown(self.path_vertices_capacity, all_vertices(scene.paths@).len() as int)
            } else {
                self.path_vertices_capacity
            },
            path_intermediate_size: if scene.paths@.len() == 0 {
                self.path_intermediate_size
            } else {
                path_size_for(viewport)
            },
            frame_number: (self.frame_number + 1) as u64,
            ..self
        }
    }

    /// The main pass, up to the end of the command buffer.
    pub open spec fn pass_plan(
        self,
        scene: Scene,
        viewport: Size<i32>,
        target: Target,
        opaque: bool,
    ) -> Seq<Command> {
        seq![
            Command::BeginPass { target, opaque },
            Command::SetViewport { width: viewport.width, height: viewport.height },
        ] + self.primitives_plan(scene, viewport) + seq![
            Command::EndPass,
            Command::EndCommandBuffer,
        ]
    }

    /// A frame up to the end of its command buffer.
    pub open spec fn frame_plan(
        self,
        scene: Scene,
        viewport: Size<i32>,
        target: Target,
        opaque: bool,
    ) -> Seq<Command> {
        self.opening_plan(scene, viewport) + self.opened(scene, viewport).pass_plan(
            scene,
            viewport,
            target,
            opaque,
        )
    }

    /// The renderer after a frame.
    pub open spec fn drew(self, scene: Scene, viewport: Size<i32>, after: Metal4Renderer) -> bool {
        self.opened(scene, viewport).drew_primitives(scene, viewport, after)
    }
}

// ---- drawing -----------------------------------------------------------------------------------

/// Grows a buffer that is too small for `count` items.
fn ensure_capacity(buffer: Buffer, capacity: &mut usize, count: usize, out: &mut Vec<Command>)
    requires
        count <= isize::MAX,
    ensures
        *final(capacity) == grown(*old(capacity), count as int),
        final(out)@ == old(out)@ + growth(buffer, *old(capacity), count as int),
{
    if count > *capacity {
        proof {
            law_grown_buffer_is_large_enough(*capacity, count as int);
        }
        let larger = capacity_for(count);
        out.push(Command::GrowBuffer { buffer, capacity: larger });
        out.push(Command::CommitResidency);
        *capacity = larger;
    }
}

fn draw_instances(
    buffer: Buffer,
    pipeline: Pipeline,
    capacity: &mut usize,
    count: usize,
    viewport: Size<i32>,
    out: &mut Vec<Command>,
)
    requires
        count <= isize::MAX,
    ensures
        *final(capacity) == grown(*old(capacity), count as int),
        final(out)@ == old(out)@ + instances_plan(
            buffer,
            pipeline,
            *old(capacity),
            count,
            viewport,
        ),
{
    ensure_capacity(buffer, capacity, count, out);
    out.push(Command::WriteItems { buffer, count });
    out.push(Command::WriteViewportSize { width: viewport.width, height: viewport.height });
    out.push(Command::BindBuffer { buffer: Buffer::UnitVertices, index: 0 });
    out.push(Command::BindBuffer { buffer, index: 1 });
    out.push(Command::BindBuffer { buffer: Buffer::ViewportSize, index: 2 });
    out.push(Command::UseArgumentTable);
    out.push(Command::UsePipeline(pipeline));
    out.push(Command::Draw { vertices: 6, instances: count });
}

fn spans_textures(sprites: &Vec<AtlasTextureId>) -> (r: bool)
    requires
        sprites@.len() > 0,
    ensures
        r == mixed(sprites@),
{
    let first = sprites[0];
    let mut i: usize = 0;
    while i < sprites.len()
        invariant
            i <= sprites@.len(),
            sprites@.len() > 0,
            first == sprites@[0],
            forall|j: int| 0 <= j < i ==> sprites@[j] == first,
        decreases sprites@.len() - i,
    {
        if sprites[i] != first {
            return true;
        }
        i = i + 1;
    }
    false
}

/// Reports sprites that are in other textures than the first, and makes that one's texture
/// resident.
fn prepare_atlas(
    resident: &mut Option<AtlasTextureId>,
    sprites: &Vec<AtlasTextureId>,
    out: &mut Vec<Command>,
)
    requires
        sprites@.len() > 0,
    ensures
        *final(resident) == Some(sprites@[0]),
        final(out)@ == old(out)@ + atlas_plan(*old(resident), sprites@),
{
    let id = sprites[0];
    if spans_textures(sprites) {
        out.push(Command::Report(Report::MixedAtlasTextures(id)));
    }
    let is_resident = match *resident {
        Some(current) => current == id,
        None => false,
    };
    if !is_resident {
        out.push(Command::AddTexture(Texture::Atlas(id)));
        out.push(Command::CommitResidency);
        *resident = Some(id);
    }
}

fn encode_sprites(
    buffer: Buffer,
    pipeline: Pipeline,
    texture: Texture,
    count: usize,
    viewport: Size<i32>,
    out: &mut Vec<Command>,
)
    ensures
        final(out)@ == old(out)@ + sprite_draw_plan(buffer, pipeline, texture, count, viewport),
{
    out.push(Command::WriteItems { buffer, count });
    out.push(Command::WriteViewportSize { width: viewport.width, height: viewport.height });
    out.push(Command::WriteTextureSize(texture));
    out.push(Command::BindBuffer { buffer: Buffer::UnitVertices, index: 0 });
    out.push(Command::BindBuffer { buffer, index: 1 });
    out.push(Command::BindBuffer { buffer: Buffer::ViewportSize, index: 2 });
    out.push(Command::BindBuffer { buffer: Buffer::AtlasSize, index: 3 });
    out.push(Command::BindTexture { texture, index: 4 });
    out.push(Command::UseArgumentTable);
    out.push(Command::UsePipeline(pipeline));
    out.push(Command::Draw { vertices: 6, instances: count });
}

fn draw_sprites(
    buffer: Buffer,
    pipeline: Pipeline,
    capacity: &mut usize,
    resident: &mut Option<AtlasTextureId>,
    sprites: &Vec<AtlasTextureId>,
    viewport: Size<i32>,
    out: &mut Vec<Command>,
)
    requires
        0 < sprites@.len() <= isize::MAX,
    ensures
        *final(capacity) == grown(*old(capacity), sprites@.len() as int),
        *final(resident) == Some(sprites@[0]),
        final(out)@ == old(out)@ + sprites_plan(
            buffer,
            pipeline,
            *old(capacity),
            *old(resident),
            sprites@,
            viewport,
        ),
{
    prepare_atlas(resident, sprites, out);
    ensure_capacity(buffer, capacity, sprites.len(), out);
    encode_sprites(buffer, pipeline, Texture::Atlas(sprites[0]), sprites.len(), viewport, out);
}

/// Rasterizes paths with the given number of vertices, in a pass of its own.
fn encode_path_pass(
    capacity: &mut usize,
    vertices: usize,
    viewport: Size<i32>,
    out: &mut Vec<Command>,
)
    requires
        vertices <= isize::MAX,
    ensures
        *final(capacity) == grown(*old(capacity), vertices as int),
        final(out)@ == old(out)@ + path_pass_plan(*old(capacity), vertices, viewport),
{
    ensure_capacity(Buffer::PathVertices, capacity, vertices, out);
    out.push(Command::WriteItems { buffer: Buffer::PathVertices, count: vertices });
    out.push(Command::WriteViewportSize { width: viewport.width, height: viewport.height });
    out.push(Command::BeginPathPass);
    out.push(Command::BindBuffer { buffer: Buffer::PathVertices, index: 0 });
    out.push(Command::BindBuffer { buffer: Buffer::ViewportSize, index: 1 });
    out.push(Command::UseArgumentTable);
    out.push(Command::UsePipeline(Pipeline::PathRasterization));
    out.push(Command::Draw { vertices, instances: 1 });
    out.push(Command::EndPass);
}

/// The vertices of all paths, path after path.
pub fn path_rasterization_vertices(paths: &Vec<Path>) -> (r: Vec<PathRasterizationVertex>)
    ensures
        r@ == all_vertices(paths@),
{
    let mut vertices: Vec<PathRasterizationVertex> = Vec::new();
    let mut i: usize = 0;
    while i < paths.len()
        invariant
            i <= paths@.len(),
            vertices@ == all_vertices(paths@.take(i as int)),
        decreases paths@.len() - i,
    {
        let path = &paths[i];
        let ghost before = vertices@;
        let mut j: usize = 0;
        while j < path.vertices.len()
            invariant
                j <= path.vertices@.len(),
                vertices@ == before + path.rasterization_vertices().take(j as int),
            decreases path.vertices@.len() - j,
        {
            let vertex = path.vertices[j];
            vertices.push(
                PathRasterizationVertex {
                    xy_position: vertex.xy_position,
                    st_position: vertex.st_position,
                    color: path.color,
                    bounds: path.clipped_bounds,
                },
            );
            j = j + 1;
            assert(vertices@ =~= before + path.rasterization_vertices().take(j as int));
        }
        proof {
            assert(path.rasterization_vertices().take(j as int)
                =~= path.rasterization_vertices());
            assert(paths@.take(i + 1).drop_last() =~= paths@.take(i as int));
        }
        i = i + 1;
    }
    assert(paths@.take(i as int) =~= paths@);
    vertices
}

/// The sprites of paths.
pub open spec fn sprites_of(paths: Seq<Path>) -> Seq<PathSprite> {
    paths.map_values(|path: Path| PathSprite { bounds: path.clipped_bounds })
}

/// There is one sprite for each path, in order, where the path is visible: its corner and its extent are
/// those of the path within its mask.
pub proof fn law_sprites_cover_their_paths(paths: Seq<Path>, i: int)
    requires
        0 <= i < paths.len(),
    ensures
        sprites_of(paths).len() == paths.len(),
        sprites_of(paths)[i].bounds.origin.x == paths[i].clipped_bounds.origin.x,
        sprites_of(paths)[i].bounds.origin.y == paths[i].clipped_bounds.origin.y,
        sprites_of(paths)[i].bounds.size.width == paths[i].clipped_bounds.size.width,
        sprites_of(paths)[i].bounds.size.height == paths[i].clipped_bounds.size.height,
{
}

/// One sprite per path, with the bounds of what is visible of it.
pub fn path_sprites(paths: &Vec<Path>) -> (r: Vec<PathSprite>)
    ensures
        r@ == sprites_of(paths@),
        r@ == paths@.map_values(|path: Path| PathSprite { bounds: path.clipped_bounds }),
{
    let mut sprites: Vec<PathSprite> = Vec::new();
    let mut i: usize = 0;
    while i < paths.len()
        invariant
            i <= paths@.len(),
            sprites@ == paths@.take(i as int).map_values(
                |path: Path| PathSprite { bounds: path.clipped_bounds },
            ),
        decreases paths@.len() - i,
    {
        sprites.push(PathSprite { bounds: paths[i].clipped_bounds });
        i = i + 1;
        assert(sprites@ =~= paths@.take(i as int).map_values(
            |path: Path| PathSprite { bounds: path.clipped_bounds },
        ));
    }
    assert(paths@.take(i as int) =~= paths@);
    sprites
}

impl Metal4Renderer {
    pub fn draw_quads(&mut self, quads: usize, viewport: Size<i32>, out: &mut Vec<Command>)
        requires
            quads <= isize::MAX,
        ensures
            *final(self) == (Metal4Renderer {
                quads_capacity: grown(old(self).quads_capacity, quads as int),
                ..*old(self)
            }),
            final(out)@ == old(out)@ + instances_plan(
                Buffer::Quads,
                Pipeline::Quad,
                old(self).quads_capacity,
                quads,
                viewport,
            ),
    {
        draw_instances(
            Buffer::Quads,
            Pipeline::Quad,
            &mut self.quads_capacity,
            quads,
            viewport,
            out,
        );
    }

    pub fn draw_underlines(
        &mut self,
        underlines: usize,
        viewport: Size<i32>,
        out: &mut Vec<Command>,
    )
        requires
            underlines <= isize::MAX,
        ensures
            *final(self) == (Metal4Renderer {
                underlines_capacity: grown(old(self).underlines_capacity, underlines as int),
                ..*old(self)
            }),
            final(out)@ == old(out)@ + instances_plan(
                Buffer::Underlines,
                Pipeline::Underline,
                old(self).underlines_capacity,
                underlines,
                viewport,
            ),
    {
        draw_instances(
            Buffer::Underlines,
            Pipeline::Underline,
            &mut self.underlines_capacity,
            underlines,
            viewport,
            out,
        );
    }

    pub fn draw_shadows(&mut self, shadows: usize, viewport: Size<i32>, out: &mut Vec<Command>)
        requires
            shadows <= isize::MAX,
        ensures
            *final(self) == (Metal4Renderer {
                shadows_capacity: grown(old(self).shadows_capacity, shadows as int),
                ..*old(self)
            }),
            final(out)@ == old(out)@ + instances_plan(
                Buffer::Shadows,
                Pipeline::Shadow,
                old(self).shadows_capacity,
                shadows,
                viewport,
            ),
    {
        draw_instances(
            Buffer::Shadows,
            Pipeline::Shadow,
            &mut self.shadows_capacity,
            shadows,
            viewport,
            out,
        );
    }

    /// Draws sprites that are tinted through the alpha of their atlas texture.
    pub fn draw_monochrome_sprites(
        &mut self,
        sprites: &Vec<AtlasTextureId>,
        viewport: Size<i32>,
        out: &mut Vec<Command>,
    )
        requires
            0 < sprites@.len() <= isize::MAX,
        ensures
            *final(self) == (Metal4Renderer {
                monochrome_sprites_capacity: grown(
                    old(self).monochrome_sprites_capacity,
                    sprites@.len() as int,
                ),
                resident_atlas_texture: Some(sprites@[0]),
                ..*old(self)
            }),
            final(out)@ == old(out)@ + sprites_plan(
                Buffer::MonochromeSprites,
                Pipeline::MonochromeSprite,
                old(self).monochrome_sprites_capacity,
                old(self).resident_atlas_texture,
                sprites@,
                viewport,
            ),
    {
        draw_sprites(
            Buffer::MonochromeSprites,
            Pipeline::MonochromeSprite,
            &mut self.monochrome_sprites_capacity,
            &mut self.resident_atlas_texture,
            sprites,
            viewport,
            out,
        );
    }

    /// Draws sprites that have the colours of their atlas texture.
    pub fn draw_polychrome_sprites(
        &mut self,
        sprites: &Vec<AtlasTextureId>,
        viewport: Size<i32>,
        out: &mut Vec<Command>,
    )
        requires
            0 < sprites@.len() <= isize::MAX,
        ensures
            *final(self) == (Metal4Renderer {
                polychrome_sprites_capacity: grown(
                    old(self).polychrome_sprites_capacity,
                    sprites@.len() as int,
                ),
                resident_atlas_texture: Some(sprites@[0]),
                ..*old(self)
            }),
            final(out)@ == old(out)@ + sprites_plan(
                Buffer::PolychromeSprites,
                Pipeline::PolychromeSprite,
                old(self).polychrome_sprites_capacity,
                old(self).resident_atlas_texture,
                sprites@,
                viewport,
            ),
    {
        draw_sprites(
            Buffer::PolychromeSprites,
            Pipeline::PolychromeSprite,
            &mut self.polychrome_sprites_capacity,
            &mut self.resident_atlas_texture,
            sprites,
            viewport,
            out,
        );
    }

    /// Makes new path textures for a viewport, or drops them where it has no area.
    pub fn rebuild_path_intermediate_textures(
        &mut self,
        size: Size<i32>,
        out: &mut Vec<Command>,
    )
        ensures
            *final(self) == (Metal4Renderer {
                path_intermediate_size: path_size_for(size),
                ..*old(self)
            }),
            final(out)@ == old(out)@.push(
                if drawable_size(size) {
                    Command::CreatePathTextures {
                        width: size.width,
                        height: size.height,
                        sample_count: PATH_SAMPLE_COUNT,
                    }
                } else {
                    Command::DropPathTextures
                },
            ),
    {
        if size.width <= 0 || size.height <= 0 {
            out.push(Command::DropPathTextures);
            self.path_intermediate_size = None;
            return;
        }
        out.push(
            Command::CreatePathTextures {
                width: size.width,
                height: size.height,
                sample_count: PATH_SAMPLE_COUNT,
            },
        );
        self.path_intermediate_size = Some((size.width, size.height));
    }

    /// Rasterizes the paths of a scene into the path texture. Says whether anything was.
    pub fn draw_paths_to_intermediate(
        &mut self,
        paths: &Vec<Path>,
        viewport: Size<i32>,
        out: &mut Vec<Command>,
    ) -> (r: bool)
        requires
            old(self).wf(),
            all_vertices(paths@).len() <= isize::MAX,
        ensures
            final(self).wf(),
            r == rasterizes(paths@, viewport),
            final(out)@ == old(out)@ + old(self).paths_to_plan(paths@, viewport),
            *final(self) == (Metal4Renderer {
                path_vertices_capacity: if r {
                    grown(old(self).path_vertices_capacity, all_vertices(paths@).len() as int)
                } else {
                    old(self).path_vertices_capacity
                },
                path_intermediate_size: if paths@.len() == 0 {
                    old(self).path_intermediate_size
                } else {
                    path_size_for(viewport)
                },
                ..*old(self)
            }),
    {
        if paths.len() == 0 {
            return false;
        }
        let fits = match self.path_intermediate_size {
            Some((width, height)) => width == viewport.width && height == viewport.height,
            None => false,
        };
        if !fits {
            self.rebuild_path_intermediate_textures(viewport, out);
        }
        assert(out@ =~= old(out)@ + path_textures_plan(
            old(self).path_intermediate_size,
            viewport,
        ));
        if self.path_intermediate_size.is_none() {
            return false;
        }
        let vertices = path_rasterization_vertices(paths).len();
        if vertices == 0 {
            return false;
        }
        encode_path_pass(&mut self.path_vertices_capacity, vertices, viewport, out);
        true
    }

    /// Composites what `draw_paths_to_intermediate` rasterized.
    pub fn draw_paths_from_intermediate(
        &mut self,
        paths: usize,
        viewport: Size<i32>,
        out: &mut Vec<Command>,
    )
        requires
            paths <= isize::MAX,
        ensures
            final(out)@ == old(out)@ + (if paths == 0 {
                seq![]
            } else if old(self).path_intermediate_size is None {
                seq![Command::Report(Report::NoPathTexture)]
            } else {
                path_sprites_plan(old(self).path_sprites_capacity, paths, viewport)
            }),
            *final(self) == (Metal4Renderer {
                path_sprites_capacity: if paths == 0 || old(self).path_intermediate_size is None {
                    old(self).path_sprites_capacity
                } else {
                    grown(old(self).path_sprites_capacity, paths as int)
                },
                ..*old(self)
            }),
    {
        if paths == 0 {
            return ;
        }
        if self.path_intermediate_size.is_none() {
            out.push(Command::Report(Report::NoPathTexture));
            return ;
        }
        out.push(Command::AddTexture(Texture::PathIntermediate));
        out.push(Command::CommitResidency);
        ensure_capacity(Buffer::PathSprites, &mut self.path_sprites_capacity, paths, out);
        out.push(Command::WriteItems { buffer: Buffer::PathSprites, count: paths });
        out.push(Command::WriteViewportSize { width: viewport.width, height: viewport.height });
        out.push(Command::BindBuffer { buffer: Buffer::UnitVertices, index: 0 });
        out.push(Command::BindBuffer { buffer: Buffer::PathSprites, index: 1 });
        out.push(Command::BindBuffer { buffer: Buffer::ViewportSize, index: 2 });
        out.push(Command::BindTexture { texture: Texture::PathIntermediate, index: 4 });
        out.push(Command::UseArgumentTable);
        out.push(Command::UsePipeline(Pipeline::PathSprite));
        out.push(Command::Draw { vertices: 6, instances: paths });
    }

    /// Draws surfaces one at a time. Their textures replace those of the last frame with surfaces
    /// in the residency set.
    pub fn draw_surfaces(
        &mut self,
        surfaces: &Vec<PaintSurface>,
        viewport: Size<i32>,
        out: &mut Vec<Command>,
    )
        requires
            old(self).wf(),
        ensures
            final(self).wf(),
            final(out)@ == old(out)@ + surfaces_plan(
                old(self).frame_number,
                old(self).surface_textures_in_residency@,
                surfaces@,
                viewport,
            ),
            final(self).surface_textures_in_residency@ == if surfaces@.len() == 0 {
                old(self).surface_textures_in_residency@
            } else {
                surface_textures(old(self).frame_number, surfaces@)
            },
            *final(self) == (Metal4Renderer {
                surface_textures_in_residency: final(self).surface_textures_in_residency,
                ..*old(self)
            }),
    {
        if surfaces.len() == 0 {
            return ;
        }
        let ghost stale = self.surface_textures_in_residency@;
        let mut i: usize = 0;
        while i < self.surface_textures_in_residency.len()
            invariant
                i <= stale.len(),
                *self == *old(self),
                stale == self.surface_textures_in_residency@,
                out@ == old(out)@ + removals(stale.take(i as int)),
            decreases stale.len() - i,
        {
            out.push(Command::RemoveTexture(self.surface_textures_in_residency[i]));
            assert(out@ =~= old(out)@ + removals(stale.take(i + 1)));
            i = i + 1;
        }
        assert(stale.take(i as int) =~= stale);
        out.push(Command::WriteViewportSize { width: viewport.width, height: viewport.height });

        let ghost before = out@;
        let frame = self.frame_number;
        let mut newly_resident: Vec<Texture> = Vec::new();
        let mut i: usize = 0;
        while i < surfaces.len()
            invariant
                i <= surfaces@.len(),
                *self == *old(self),
                frame == self.frame_number,
                out@ == before + each_surface_plan(frame, surfaces@.take(i as int)),
                newly_resident@ == surface_textures(frame, surfaces@.take(i as int)),
            decreases surfaces@.len() - i,
        {
            proof {
                assert(surfaces@.take(i + 1).drop_last() =~= surfaces@.take(i as int));
                assert(surfaces@.take(i + 1).last() == surfaces@[i as int]);
            }
            let ghost previous = out@;
            let surface = surfaces[i];
            if surface.pixel_format != SURFACE_PIXEL_FORMAT {
                out.push(Command::Report(Report::UnsupportedSurface));
            } else if !surface.luma {
                out.push(Command::Report(Report::NoSurfaceTexture(Plane::Luma)));
            } else if !surface.chroma {
                out.push(Command::Report(Report::NoSurfaceTexture(Plane::Chroma)));
            } else {
                let luma = Texture::Surface { frame, surface: i, plane: Plane::Luma };
                let chroma = Texture::Surface { frame, surface: i, plane: Plane::Chroma };
                out.push(Command::AddTexture(luma));
                out.push(Command::AddTexture(chroma));
                out.push(Command::CommitResidency);
                newly_resident.push(luma);
                newly_resident.push(chroma);
                out.push(Command::WriteItems { buffer: Buffer::SurfaceBounds, count: 1 });
                out.push(
                    Command::WriteAtlasSize { width: surface.width, height: surface.height },
                );
                out.push(Command::BindBuffer { buffer: Buffer::UnitVertices, index: 0 });
                out.push(Command::BindBuffer { buffer: Buffer::SurfaceBounds, index: 1 });
                out.push(Command::BindBuffer { buffer: Buffer::ViewportSize, index: 2 });
                out.push(Command::BindBuffer { buffer: Buffer::AtlasSize, index: 3 });
                out.push(Command::BindTexture { texture: luma, index: 4 });
                out.push(Command::BindTexture { texture: chroma, index: 5 });
                out.push(Command::UseArgumentTable);
                out.push(Command::UsePipeline(Pipeline::Surface));
                out.push(Command::Draw { vertices: 6, instances: 1 });
            }
            assert(out@ =~= previous + surface_plan(frame, i, surface));
            assert(newly_resident@ =~= surface_textures(frame, surfaces@.take(i + 1)));
            i = i + 1;
        }
        assert(surfaces@.take(i as int) =~= surfaces@);
        proof {
            lemma_surface_textures(frame, surfaces@);
        }
        self.surface_textures_in_residency = newly_resident;
    }
}

} // verus!
