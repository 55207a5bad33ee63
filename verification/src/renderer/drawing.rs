//! What the draws of a frame draw, and what they read.
//!
//! A draw stands at the end of commands that say what it reads: which items were written to the
//! buffers, what is bound, what is in use. `Sheet` keeps account of that, command by command.

use crate::geometry::Size;
use crate::renderer::gpu::{
    AtlasTextureId, Buffer, Command, Pipeline, Plane, Target, Texture,
};
use crate::renderer::metal4_renderer::{
    all_vertices, atlas_plan, each_surface_plan, growth, instance_draw_plan, instances_plan,
    path_draw_plan, path_sprite_draw_plan, path_sprites_plan, path_textures_plan, registration,
    removals, sprite_draw_plan, sprites_plan, surface_plan, surfaces_plan, Metal4Renderer,
    PaintSurface, Path, Scene,
};
use vstd::prelude::*;

verus! {

/// A render pass that is being encoded.
pub enum Pass {
    /// The one that rasterizes paths into their texture.
    Paths,
    Main { target: Target, opaque: bool },
}

/// What the atlas-size buffer holds.
pub enum Extent {
    Of(Texture),
    Given(i32, i32),
}

/// What the commands so far have prepared for a draw.
pub struct Sheet {
    pub pass: Option<Pass>,
    /// The part of the target that is drawn to.
    pub area: Option<(i32, i32)>,
    pub pipeline: Option<Pipeline>,
    /// The argument table as it is filled in.
    pub buffers: Map<int, Buffer>,
    pub textures: Map<int, Texture>,
    /// The argument table as it was last put to use in this pass.
    pub read_buffers: Map<int, Buffer>,
    pub read_textures: Map<int, Texture>,
    /// How many items were written to each buffer since it was last replaced.
    pub items: Map<Buffer, int>,
    /// What the viewport-size buffer holds.
    pub viewport: Option<(i32, i32)>,
    /// What the atlas-size buffer holds.
    pub extent: Option<Extent>,
    /// How many vertices of paths are rasterized in the path texture.
    pub rasterized: int,
}

impl Sheet {
    /// The effect of one command.
    pub open spec fn step(self, command: Command) -> Sheet {
        match command {
            Command::BeginPass { target, opaque } => Sheet {
                pass: Some(Pass::Main { target, opaque }),
                area: None,
                pipeline: None,
                read_buffers: Map::empty(),
                read_textures: Map::empty(),
                ..self
            },
            Command::BeginPathPass => Sheet {
                pass: Some(Pass::Paths),
                area: None,
                pipeline: None,
                read_buffers: Map::empty(),
                read_textures: Map::empty(),
                rasterized: 0,
                ..self
            },
            Command::EndPass => Sheet { pass: None, pipeline: None, ..self },
            Command::SetViewport { width, height } => Sheet { area: Some((width, height)), ..self },
            Command::UsePipeline(pipeline) => Sheet { pipeline: Some(pipeline), ..self },
            Command::BindBuffer { buffer, index } => Sheet {
                buffers: self.buffers.insert(index as int, buffer),
                ..self
            },
            Command::BindTexture { texture, index } => Sheet {
                textures: self.textures.insert(index as int, texture),
                ..self
            },
            Command::UseArgumentTable => Sheet {
                read_buffers: self.buffers,
                read_textures: self.textures,
                ..self
            },
            Command::GrowBuffer { buffer, .. } => Sheet {
                items: self.items.insert(buffer, 0),
                ..self
            },
            Command::WriteItems { buffer, count } => Sheet {
                items: self.items.insert(buffer, count as int),
                ..self
            },
            Command::WriteViewportSize { width, height } => Sheet {
                viewport: Some((width, height)),
                ..self
            },
            Command::WriteTextureSize(texture) => Sheet {
                extent: Some(Extent::Of(texture)),
                ..self
            },
            Command::WriteAtlasSize { width, height } => Sheet {
                extent: Some(Extent::Given(width, height)),
                ..self
            },
            Command::CreatePathTextures { .. } => Sheet { rasterized: 0, ..self },
            Command::DropPathTextures => Sheet { rasterized: 0, ..self },
            Command::Draw { vertices, .. } => if self.pass == Some(Pass::Paths) {
                Sheet { rasterized: self.rasterized + vertices, ..self }
            } else {
                self
            },
            _ => self,
        }
    }

    /// The effect of the first commands of a list.
    pub open spec fn after(self, plan: Seq<Command>, count: nat) -> Sheet
        decreases count,
    {
        if count == 0 {
            self
        } else {
            self.after(plan, (count - 1) as nat).step(plan[count - 1])
        }
    }

    /// The instances that the first commands of a list draw with a pipeline, and with a given texture
    /// in a slot where one is given.
    pub open spec fn drawn(self, plan: Seq<Command>, count: nat, wanted: Wanted) -> int
        decreases count,
    {
        if count == 0 {
            0
        } else {
            self.drawn(plan, (count - 1) as nat, wanted) + match plan[count - 1] {
                Command::Draw { instances, .. } => if wanted.is_met(
                    self.after(plan, (count - 1) as nat),
                ) {
                    instances as int
                } else {
                    0
                },
                _ => 0,
            }
        }
    }

    /// Each draw among the first commands of a list is one that the frame calls for.
    pub open spec fn is_right(self, plan: Seq<Command>, count: nat, frame: FrameView) -> bool
        decreases count,
    {
        count == 0 || self.is_right(plan, (count - 1) as nat, frame) && match plan[count - 1] {
            Command::Draw { vertices, instances } => frame.calls_for(
                self.after(plan, (count - 1) as nat),
                vertices,
                instances,
            ),
            _ => true,
        }
    }

    pub open spec fn reads_buffer(self, index: int, buffer: Buffer) -> bool {
        self.read_buffers.contains_key(index) && self.read_buffers[index] == buffer
    }

    pub open spec fn reads_texture(self, index: int, texture: Texture) -> bool {
        self.read_textures.contains_key(index) && self.read_textures[index] == texture
    }

    /// The draw reads the corners of the unit square, a number of items and the size of the viewport.
    pub open spec fn reads_items(self, buffer: Buffer, count: int, viewport: Size<i32>) -> bool {
        &&& self.reads_buffer(0, Buffer::UnitVertices)
        &&& self.reads_buffer(1, buffer)
        &&& self.items.contains_key(buffer)
        &&& self.items[buffer] == count
        &&& self.reads_buffer(2, Buffer::ViewportSize)
        &&& self.viewport == Some((viewport.width, viewport.height))
    }
}

/// The draws that are counted.
pub enum Wanted {
    /// Those with a pipeline.
    With(Pipeline),
    /// Those of a surface, by the plane of its brightness.
    Showing(Texture),
}

impl Wanted {
    pub open spec fn is_met(self, sheet: Sheet) -> bool {
        match self {
            Wanted::With(pipeline) => sheet.pipeline == Some(pipeline),
            Wanted::Showing(texture) => sheet.pipeline == Some(Pipeline::Surface)
                && sheet.reads_texture(4, texture),
        }
    }
}

/// The vertices that some paths have together.
pub open spec fn vertex_count(paths: Seq<Path>) -> int
    decreases paths.len(),
{
    if paths.len() == 0 {
        0
    } else {
        vertex_count(paths.drop_last()) + paths.last().vertices@.len()
    }
}

/// A surface is a full-range bi-planar frame, and there is a texture of each of its planes.
pub open spec fn shows(surface: PaintSurface) -> bool {
    surface.pixel_format == 0x3432_3066 && surface.luma && surface.chroma
}

/// How many surfaces can be shown.
pub open spec fn shown_count(surfaces: Seq<PaintSurface>) -> int
    decreases surfaces.len(),
{
    if surfaces.len() == 0 {
        0
    } else {
        shown_count(surfaces.drop_last()) + if shows(surfaces.last()) {
            1int
        } else {
            0
        }
    }
}

/// A frame: what it draws and where to.
pub struct FrameView {
    pub scene: Scene,
    pub viewport: Size<i32>,
    pub target: Target,
    pub opaque: bool,
    pub number: u64,
}

impl FrameView {
    /// The paths of the frame are drawn: the viewport has an area and the paths have vertices.
    pub open spec fn draws_paths(self) -> bool {
        self.viewport.width > 0 && self.viewport.height > 0 && vertex_count(self.scene.paths@) > 0
    }

    /// How many primitives of the kind that a pipeline draws are to be drawn. All paths are
    /// rasterized at once.
    pub open spec fn primitives(self, pipeline: Pipeline) -> int {
        match pipeline {
            Pipeline::Quad => self.scene.quads as int,
            Pipeline::Underline => self.scene.underlines as int,
            Pipeline::Shadow => self.scene.shadows as int,
            Pipeline::MonochromeSprite => self.scene.monochrome_sprites@.len() as int,
            Pipeline::PolychromeSprite => self.scene.polychrome_sprites@.len() as int,
            Pipeline::PathRasterization => if self.draws_paths() {
                1
            } else {
                0
            },
            Pipeline::PathSprite => if self.draws_paths() {
                self.scene.paths@.len() as int
            } else {
                0
            },
            Pipeline::Surface => shown_count(self.scene.surfaces@),
        }
    }

    /// The draw is to the whole of the frame's target.
    pub open spec fn is_shown(self, sheet: Sheet) -> bool {
        &&& sheet.pass == Some(Pass::Main { target: self.target, opaque: self.opaque })
        &&& sheet.area == Some((self.viewport.width, self.viewport.height))
    }

    /// The draw is of the primitives of one kind, all of them at once: six corners for each, and what
    /// was written for each.
    pub open spec fn draws_all(
        self,
        sheet: Sheet,
        vertices: usize,
        instances: usize,
        buffer: Buffer,
        count: int,
    ) -> bool {
        &&& self.is_shown(sheet)
        &&& vertices == 6
        &&& instances == count
        &&& sheet.reads_items(buffer, count, self.viewport)
    }

    /// The draw samples an atlas texture, whose size it reads.
    pub open spec fn samples_atlas(self, sheet: Sheet, sprites: Seq<AtlasTextureId>) -> bool {
        &&& sheet.reads_texture(4, Texture::Atlas(sprites[0]))
        &&& sheet.reads_buffer(3, Buffer::AtlasSize)
        &&& sheet.extent == Some(Extent::Of(Texture::Atlas(sprites[0])))
    }

    /// The draw is of one surface that can be shown: it samples both its planes, and reads its size.
    pub open spec fn samples_surface(self, sheet: Sheet, surface: int) -> bool {
        &&& 0 <= surface < self.scene.surfaces@.len()
        &&& shows(self.scene.surfaces@[surface])
        &&& sheet.reads_texture(4, self.plane(surface as usize, Plane::Luma))
        &&& sheet.reads_texture(5, self.plane(surface as usize, Plane::Chroma))
        &&& sheet.reads_buffer(3, Buffer::AtlasSize)
        &&& sheet.extent == Some(
            Extent::Given(
                self.scene.surfaces@[surface].width,
                self.scene.surfaces@[surface].height,
            ),
        )
    }

    pub open spec fn plane(self, surface: usize, plane: Plane) -> Texture {
        Texture::Surface { frame: self.number, surface, plane }
    }

    /// A draw with what was prepared for it is one that the frame calls for.
    pub open spec fn calls_for(self, sheet: Sheet, vertices: usize, instances: usize) -> bool {
        match sheet.pipeline {
            None => false,
            Some(Pipeline::Quad) => self.draws_all(
                sheet,
                vertices,
                instances,
                Buffer::Quads,
                self.scene.quads as int,
            ),
            Some(Pipeline::Underline) => self.draws_all(
                sheet,
                vertices,
                instances,
                Buffer::Underlines,
                self.scene.underlines as int,
            ),
            Some(Pipeline::Shadow) => self.draws_all(
                sheet,
                vertices,
                instances,
                Buffer::Shadows,
                self.scene.shadows as int,
            ),
            Some(Pipeline::MonochromeSprite) => self.draws_all(
                sheet,
                vertices,
                instances,
                Buffer::MonochromeSprites,
                self.scene.monochrome_sprites@.len() as int,
            ) && self.samples_atlas(sheet, self.scene.monochrome_sprites@),
            Some(Pipeline::PolychromeSprite) => self.draws_all(
                sheet,
                vertices,
                instances,
                Buffer::PolychromeSprites,
                self.scene.polychrome_sprites@.len() as int,
            ) && self.samples_atlas(sheet, self.scene.polychrome_sprites@),
            Some(Pipeline::PathRasterization) => {
                &&& sheet.pass == Some(Pass::Paths)
                &&& vertices == vertex_count(self.scene.paths@)
                &&& instances == 1
                &&& sheet.reads_buffer(0, Buffer::PathVertices)
                &&& sheet.items.contains_key(Buffer::PathVertices)
                &&& sheet.items[Buffer::PathVertices] == vertices
                &&& sheet.reads_buffer(1, Buffer::ViewportSize)
                &&& sheet.viewport == Some((self.viewport.width, self.viewport.height))
            },
            Some(Pipeline::PathSprite) => {
                &&& self.draws_all(
                    sheet,
                    vertices,
                    instances,
                    Buffer::PathSprites,
                    self.scene.paths@.len() as int,
                )
                &&& sheet.reads_texture(4, Texture::PathIntermediate)
                &&& sheet.rasterized == vertex_count(self.scene.paths@)
            },
            Some(Pipeline::Surface) => {
                &&& self.draws_all(sheet, vertices, instances, Buffer::SurfaceBounds, 1)
                &&& exists|surface: int| #[trigger] self.samples_surface(sheet, surface)
            },
        }
    }
}

// ---- lists one after the other -----------------------------------------------------------------

impl Sheet {
    pub open spec fn run(self, plan: Seq<Command>) -> Sheet {
        self.after(plan, plan.len())
    }
}

proof fn lemma_front(
    sheet: Sheet,
    a: Seq<Command>,
    b: Seq<Command>,
    count: nat,
    wanted: Wanted,
    frame: FrameView,
)
    requires
        count <= a.len(),
    ensures
        sheet.after(a + b, count) == sheet.after(a, count),
        sheet.drawn(a + b, count, wanted) == sheet.drawn(a, count, wanted),
        sheet.is_right(a + b, count, frame) == sheet.is_right(a, count, frame),
    decreases count,
{
    if count > 0 {
        lemma_front(sheet, a, b, (count - 1) as nat, wanted, frame);
        assert((a + b)[count - 1] == a[count - 1]);
    }
}

proof fn lemma_back(
    sheet: Sheet,
    a: Seq<Command>,
    b: Seq<Command>,
    count: nat,
    wanted: Wanted,
    frame: FrameView,
)
    requires
        count <= b.len(),
    ensures
        sheet.after(a + b, a.len() + count) == sheet.run(a).after(b, count),
        sheet.drawn(a + b, a.len() + count, wanted) == sheet.drawn(a, a.len(), wanted) + sheet.run(
            a,
        ).drawn(b, count, wanted),
        sheet.is_right(a + b, a.len() + count, frame) == (sheet.is_right(a, a.len(), frame)
            && sheet.run(a).is_right(b, count, frame)),
    decreases count,
{
    if count == 0 {
        lemma_front(sheet, a, b, a.len(), wanted, frame);
    } else {
        lemma_back(sheet, a, b, (count - 1) as nat, wanted, frame);
        assert((a + b)[a.len() + count - 1] == b[count - 1]);
    }
}

/// What a list of commands does to a frame: all its draws are called for, it draws so many instances of
/// those that are wanted, and the frame goes on behind it.
spec fn does(
    frame: FrameView,
    sheet: Sheet,
    plan: Seq<Command>,
    wanted: Wanted,
    instances: int,
) -> bool {
    &&& sheet.is_right(plan, plan.len(), frame)
    &&& sheet.drawn(plan, plan.len(), wanted) == instances
    &&& frame.is_shown(sheet) ==> frame.is_shown(sheet.run(plan))
    &&& sheet.run(plan).rasterized == sheet.rasterized
}

proof fn lemma_join(
    frame: FrameView,
    sheet: Sheet,
    a: Seq<Command>,
    b: Seq<Command>,
    wanted: Wanted,
    first: int,
    second: int,
)
    requires
        does(frame, sheet, a, wanted, first),
        does(frame, sheet.run(a), b, wanted, second),
    ensures
        does(frame, sheet, a + b, wanted, first + second),
        sheet.run(a + b) == sheet.run(a).run(b),
{
    lemma_back(sheet, a, b, b.len(), wanted, frame);
}

/// Commands that draw nothing.
proof fn lemma_quiet(
    sheet: Sheet,
    plan: Seq<Command>,
    count: nat,
    wanted: Wanted,
    frame: FrameView,
)
    requires
        count <= plan.len(),
        forall|i: int| 0 <= i < count ==> !(#[trigger] plan[i] is Draw),
    ensures
        sheet.drawn(plan, count, wanted) == 0,
        sheet.is_right(plan, count, frame),
    decreases count,
{
    if count > 0 {
        lemma_quiet(sheet, plan, (count - 1) as nat, wanted, frame);
        assert(!(plan[count - 1] is Draw));
    }
}

/// A command that prepares a draw, but neither begins nor ends a pass, nor touches the path texture.
spec fn prepares(command: Command) -> bool {
    match command {
        Command::BeginPass { .. } => false,
        Command::BeginPathPass => false,
        Command::EndPass => false,
        Command::SetViewport { .. } => false,
        Command::CreatePathTextures { .. } => false,
        Command::DropPathTextures => false,
        Command::Draw { .. } => false,
        _ => true,
    }
}

proof fn lemma_prepared(sheet: Sheet, plan: Seq<Command>, count: nat)
    requires
        count <= plan.len(),
        forall|i: int| 0 <= i < count ==> prepares(#[trigger] plan[i]),
    ensures
        sheet.after(plan, count).pass == sheet.pass,
        sheet.after(plan, count).area == sheet.area,
        sheet.after(plan, count).rasterized == sheet.rasterized,
    decreases count,
{
    if count > 0 {
        lemma_prepared(sheet, plan, (count - 1) as nat);
        assert(prepares(plan[count - 1]));
    }
}

proof fn lemma_preparation(frame: FrameView, sheet: Sheet, plan: Seq<Command>, wanted: Wanted)
    requires
        forall|i: int| 0 <= i < plan.len() ==> prepares(#[trigger] plan[i]),
    ensures
        does(frame, sheet, plan, wanted, 0),
{
    lemma_prepared(sheet, plan, plan.len());
    lemma_quiet(sheet, plan, plan.len(), wanted, frame);
}

// ---- the parts of a frame ----------------------------------------------------------------------

/// The instances of a kind, where the wanted draws are of that kind.
spec fn if_wanted(wanted: Wanted, pipeline: Pipeline, count: int) -> int {
    if wanted == Wanted::With(pipeline) {
        count
    } else {
        0
    }
}

/// A list whose last command, and no other, draws.
proof fn lemma_one_draw(
    frame: FrameView,
    sheet: Sheet,
    plan: Seq<Command>,
    wanted: Wanted,
    pipeline: Pipeline,
)
    requires
        plan.len() > 0,
        plan.last() is Draw,
        forall|i: int| 0 <= i < plan.len() - 1 ==> prepares(#[trigger] plan[i]),
        frame.is_shown(sheet),
        sheet.after(plan, (plan.len() - 1) as nat).pipeline == Some(pipeline),
        !(pipeline is Surface),
        frame.calls_for(
            sheet.after(plan, (plan.len() - 1) as nat),
            plan.last()->vertices,
            plan.last()->instances,
        ),
    ensures
        does(
            frame,
            sheet,
            plan,
            wanted,
            if_wanted(wanted, pipeline, plan.last()->instances as int),
        ),
{
    let count = (plan.len() - 1) as nat;
    lemma_prepared(sheet, plan, count);
    lemma_quiet(sheet, plan, count, wanted, frame);
}

proof fn lemma_growth(
    frame: FrameView,
    sheet: Sheet,
    buffer: Buffer,
    capacity: usize,
    count: int,
    wanted: Wanted,
)
    ensures
        does(frame, sheet, growth(buffer, capacity, count), wanted, 0),
{
    lemma_preparation(frame, sheet, growth(buffer, capacity, count), wanted);
}

proof fn lemma_instances(
    frame: FrameView,
    sheet: Sheet,
    wanted: Wanted,
    buffer: Buffer,
    pipeline: Pipeline,
    capacity: usize,
    count: usize,
)
    requires
        frame.is_shown(sheet),
        ({
            ||| pipeline is Quad && buffer is Quads && count == frame.scene.quads
            ||| pipeline is Underline && buffer is Underlines && count == frame.scene.underlines
            ||| pipeline is Shadow && buffer is Shadows && count == frame.scene.shadows
        }),
    ensures
        does(
            frame,
            sheet,
            instances_plan(buffer, pipeline, capacity, count, frame.viewport),
            wanted,
            if_wanted(wanted, pipeline, count as int),
        ),
{
    let first = growth(buffer, capacity, count as int);
    let rest = instance_draw_plan(buffer, pipeline, count, frame.viewport);
    lemma_growth(frame, sheet, buffer, capacity, count as int, wanted);
    let grown = sheet.run(first);
    assert(rest.len() == 8);
    lemma_prepared(grown, rest, 7);
    reveal_with_fuel(Sheet::after, 8);
    assert(grown.after(rest, 7).reads_items(buffer, count as int, frame.viewport));
    lemma_one_draw(frame, grown, rest, wanted, pipeline);
    lemma_join(frame, sheet, first, rest, wanted, 0, if_wanted(wanted, pipeline, count as int));
}

proof fn lemma_sprite_sheet(
    frame: FrameView,
    sheet: Sheet,
    buffer: Buffer,
    pipeline: Pipeline,
    sprites: Seq<AtlasTextureId>,
)
    requires
        0 < sprites.len() <= usize::MAX,
    ensures
        ({
            let plan = sprite_draw_plan(
                buffer,
                pipeline,
                Texture::Atlas(sprites[0]),
                sprites.len() as usize,
                frame.viewport,
            );
            let ready = sheet.after(plan, 10);
            &&& plan.len() == 11
            &&& ready.pipeline == Some(pipeline)
            &&& ready.reads_items(buffer, sprites.len() as int, frame.viewport)
            &&& frame.samples_atlas(ready, sprites)
        }),
{
    reveal_with_fuel(Sheet::after, 11);
}

proof fn lemma_sprites(
    frame: FrameView,
    sheet: Sheet,
    wanted: Wanted,
    buffer: Buffer,
    pipeline: Pipeline,
    capacity: usize,
    resident: Option<AtlasTextureId>,
    sprites: Seq<AtlasTextureId>,
)
    requires
        frame.is_shown(sheet),
        0 < sprites.len() <= usize::MAX,
        ({
            ||| pipeline is MonochromeSprite && buffer is MonochromeSprites && sprites
                == frame.scene.monochrome_sprites@
            ||| pipeline is PolychromeSprite && buffer is PolychromeSprites && sprites
                == frame.scene.polychrome_sprites@
        }),
    ensures
        does(
            frame,
            sheet,
            sprites_plan(buffer, pipeline, capacity, resident, sprites, frame.viewport),
            wanted,
            if_wanted(wanted, pipeline, sprites.len() as int),
        ),
{
    let count = sprites.len() as usize;
    let first = atlas_plan(resident, sprites);
    let second = growth(buffer, capacity, sprites.len() as int);
    let rest = sprite_draw_plan(
        buffer,
        pipeline,
        Texture::Atlas(sprites[0]),
        count,
        frame.viewport,
    );
    lemma_preparation(frame, sheet, first, wanted);
    lemma_growth(frame, sheet.run(first), buffer, capacity, sprites.len() as int, wanted);
    lemma_join(frame, sheet, first, second, wanted, 0, 0);
    let grown = sheet.run(first + second);
    lemma_sprite_sheet(frame, grown, buffer, pipeline, sprites);
    lemma_prepared(grown, rest, 10);
    lemma_one_draw(frame, grown, rest, wanted, pipeline);
    lemma_join(
        frame,
        sheet,
        first + second,
        rest,
        wanted,
        0,
        if_wanted(wanted, pipeline, count as int),
    );
}

proof fn lemma_path_sprites(frame: FrameView, sheet: Sheet, wanted: Wanted, capacity: usize)
    requires
        frame.is_shown(sheet),
        frame.scene.paths@.len() <= usize::MAX,
        sheet.rasterized == vertex_count(frame.scene.paths@),
    ensures
        does(
            frame,
            sheet,
            path_sprites_plan(capacity, frame.scene.paths@.len() as usize, frame.viewport),
            wanted,
            if_wanted(wanted, Pipeline::PathSprite, frame.scene.paths@.len() as int),
        ),
{
    let count = frame.scene.paths@.len() as usize;
    let first = registration(Texture::PathIntermediate);
    let second = growth(Buffer::PathSprites, capacity, count as int);
    let rest = path_sprite_draw_plan(count, frame.viewport);
    lemma_preparation(frame, sheet, first, wanted);
    lemma_growth(
        frame,
        sheet.run(first),
        Buffer::PathSprites,
        capacity,
        count as int,
        wanted,
    );
    lemma_join(frame, sheet, first, second, wanted, 0, 0);
    let grown = sheet.run(first + second);
    assert(rest.len() == 9);
    lemma_prepared(grown, rest, 8);
    reveal_with_fuel(Sheet::after, 9);
    assert(grown.after(rest, 8).reads_items(Buffer::PathSprites, count as int, frame.viewport));
    lemma_one_draw(frame, grown, rest, wanted, Pipeline::PathSprite);
    lemma_join(
        frame,
        sheet,
        first + second,
        rest,
        wanted,
        0,
        if_wanted(wanted, Pipeline::PathSprite, count as int),
    );
}

/// The instances that a surface is drawn with, where it is wanted.
spec fn shown_once(frame: FrameView, wanted: Wanted, surface: int) -> int {
    if shows(frame.scene.surfaces@[surface]) && (wanted == Wanted::With(Pipeline::Surface) || wanted
        == Wanted::Showing(frame.plane(surface as usize, Plane::Luma))) {
        1
    } else {
        0
    }
}

/// The instances that the first surfaces are drawn with, where they are wanted.
spec fn shown_first(frame: FrameView, wanted: Wanted, count: nat) -> int
    decreases count,
{
    if count == 0 {
        0
    } else {
        shown_first(frame, wanted, (count - 1) as nat) + shown_once(frame, wanted, count - 1)
    }
}

proof fn lemma_surface(frame: FrameView, sheet: Sheet, wanted: Wanted, surface: int)
    requires
        frame.is_shown(sheet),
        0 <= surface < frame.scene.surfaces@.len() <= usize::MAX,
        sheet.viewport == Some((frame.viewport.width, frame.viewport.height)),
    ensures
        does(
            frame,
            sheet,
            surface_plan(frame.number, surface as usize, frame.scene.surfaces@[surface]),
            wanted,
            shown_once(frame, wanted, surface),
        ),
        sheet.run(
            surface_plan(frame.number, surface as usize, frame.scene.surfaces@[surface]),
        ).viewport == sheet.viewport,
{
    let one = frame.scene.surfaces@[surface];
    let plan = surface_plan(frame.number, surface as usize, one);
    if shows(one) {
        assert(plan.len() == 14);
        lemma_prepared(sheet, plan, 13);
        lemma_quiet(sheet, plan, 13, wanted, frame);
        reveal_with_fuel(Sheet::after, 15);
        let ready = sheet.after(plan, 13);
        assert(ready.reads_items(Buffer::SurfaceBounds, 1, frame.viewport));
        assert(frame.samples_surface(ready, surface));
        assert(frame.calls_for(ready, 6, 1));
    } else {
        assert(plan.len() == 1);
        reveal_with_fuel(Sheet::after, 2);
        lemma_preparation(frame, sheet, plan, wanted);
    }
}

proof fn lemma_each_surface(frame: FrameView, sheet: Sheet, wanted: Wanted, count: nat)
    requires
        frame.is_shown(sheet),
        count <= frame.scene.surfaces@.len() <= usize::MAX,
        sheet.viewport == Some((frame.viewport.width, frame.viewport.height)),
    ensures
        does(
            frame,
            sheet,
            each_surface_plan(frame.number, frame.scene.surfaces@.take(count as int)),
            wanted,
            shown_first(frame, wanted, count),
        ),
        sheet.run(
            each_surface_plan(frame.number, frame.scene.surfaces@.take(count as int)),
        ).viewport == sheet.viewport,
    decreases count,
{
    let all = frame.scene.surfaces@.take(count as int);
    if count == 0 {
        lemma_preparation(frame, sheet, each_surface_plan(frame.number, all), wanted);
    } else {
        let shorter = frame.scene.surfaces@.take(count - 1);
        assert(all.drop_last() =~= shorter);
        assert(all.last() == frame.scene.surfaces@[count - 1]);
        lemma_each_surface(frame, sheet, wanted, (count - 1) as nat);
        let before = each_surface_plan(frame.number, shorter);
        lemma_surface(frame, sheet.run(before), wanted, count - 1);
        lemma_join(
            frame,
            sheet,
            before,
            surface_plan(
                frame.number,
                (count - 1) as usize,
                frame.scene.surfaces@[count - 1],
            ),
            wanted,
            shown_first(frame, wanted, (count - 1) as nat),
            shown_once(frame, wanted, count - 1),
        );
    }
}

proof fn lemma_surfaces(frame: FrameView, sheet: Sheet, wanted: Wanted, stale: Seq<Texture>)
    requires
        frame.is_shown(sheet),
        frame.scene.surfaces@.len() <= usize::MAX,
    ensures
        does(
            frame,
            sheet,
            surfaces_plan(frame.number, stale, frame.scene.surfaces@, frame.viewport),
            wanted,
            shown_first(frame, wanted, frame.scene.surfaces@.len()),
        ),
{
    let surfaces = frame.scene.surfaces@;
    if surfaces.len() == 0 {
        lemma_preparation(
            frame,
            sheet,
            surfaces_plan(frame.number, stale, surfaces, frame.viewport),
            wanted,
        );
    } else {
        let first = removals(stale);
        let second = seq![
            Command::WriteViewportSize {
                width: frame.viewport.width,
                height: frame.viewport.height,
            },
        ];
        let rest = each_surface_plan(frame.number, surfaces);
        assert forall|i: int| 0 <= i < first.len() implies prepares(#[trigger] first[i]) by {
            assert(first[i] == Command::RemoveTexture(stale[i]));
        }
        lemma_preparation(frame, sheet, first, wanted);
        lemma_preparation(frame, sheet.run(first), second, wanted);
        lemma_join(frame, sheet, first, second, wanted, 0, 0);
        assert(sheet.run(first).run(second).viewport == Some(
            (frame.viewport.width, frame.viewport.height),
        )) by {
            reveal_with_fuel(Sheet::after, 2);
        }
        assert(surfaces.take(surfaces.len() as int) =~= surfaces);
        lemma_each_surface(frame, sheet.run(first + second), wanted, surfaces.len());
        lemma_join(
            frame,
            sheet,
            first + second,
            rest,
            wanted,
            0,
            shown_first(frame, wanted, surfaces.len()),
        );
    }
}

// ---- whole frames ------------------------------------------------------------------------------

proof fn lemma_vertex_count(paths: Seq<Path>)
    ensures
        all_vertices(paths).len() == vertex_count(paths),
        vertex_count(paths) >= 0,
        paths.len() == 0 ==> vertex_count(paths) == 0,
    decreases paths.len(),
{
    if paths.len() > 0 {
        lemma_vertex_count(paths.drop_last());
    }
}

/// The rasterization of the paths, in front of the main pass.
proof fn lemma_opening(renderer: Metal4Renderer, frame: FrameView, sheet: Sheet, wanted: Wanted)
    requires
        frame.scene.fits(),
    ensures
        ({
            let plan = renderer.opening_plan(frame.scene, frame.viewport);
            &&& sheet.is_right(plan, plan.len(), frame)
            &&& sheet.drawn(plan, plan.len(), wanted) == if_wanted(
                wanted,
                Pipeline::PathRasterization,
                frame.primitives(Pipeline::PathRasterization),
            )
            &&& frame.draws_paths() ==> sheet.run(plan).rasterized == vertex_count(
                frame.scene.paths@,
            )
        }),
{
    let paths = frame.scene.paths@;
    let begin = renderer.begin_plan();
    let textures = path_textures_plan(renderer.path_intermediate_size, frame.viewport);
    lemma_vertex_count(paths);
    lemma_quiet(sheet, begin, begin.len(), wanted, frame);
    let rest = renderer.paths_to_plan(paths, frame.viewport);
    lemma_back(sheet, begin, rest, rest.len(), wanted, frame);
    let begun = sheet.run(begin);
    if paths.len() == 0 {
        lemma_quiet(begun, rest, rest.len(), wanted, frame);
    } else {
        lemma_quiet(begun, textures, textures.len(), wanted, frame);
        let made = begun.run(textures);
        if frame.draws_paths() {
            let vertices = all_vertices(paths).len() as usize;
            let first = growth(
                Buffer::PathVertices,
                renderer.path_vertices_capacity,
                vertices as int,
            );
            let draw = path_draw_plan(vertices, frame.viewport);
            lemma_back(begun, textures, first + draw, (first + draw).len(), wanted, frame);
            lemma_back(made, first, draw, draw.len(), wanted, frame);
            lemma_quiet(made, first, first.len(), wanted, frame);
            lemma_path_draw(frame, made.run(first), wanted, vertices);
        } else {
            assert(rest =~= textures);
        }
    }
}

proof fn lemma_path_draw(frame: FrameView, sheet: Sheet, wanted: Wanted, vertices: usize)
    requires
        vertices == vertex_count(frame.scene.paths@),
    ensures
        ({
            let plan = path_draw_plan(vertices, frame.viewport);
            &&& sheet.is_right(plan, plan.len(), frame)
            &&& sheet.drawn(plan, plan.len(), wanted) == if_wanted(
                wanted,
                Pipeline::PathRasterization,
                1,
            )
            &&& sheet.run(plan).rasterized == vertices
        }),
{
    let plan = path_draw_plan(vertices, frame.viewport);
    assert(plan.len() == 9);
    lemma_quiet(sheet, plan, 7, wanted, frame);
    reveal_with_fuel(Sheet::after, 10);
    let ready = sheet.after(plan, 7);
    assert(ready.pass == Some(Pass::Paths));
    assert(frame.calls_for(ready, vertices, 1));
    reveal_with_fuel(Sheet::drawn, 3);
    reveal_with_fuel(Sheet::is_right, 3);
}

proof fn lemma_shapes(renderer: Metal4Renderer, frame: FrameView, sheet: Sheet, wanted: Wanted)
    requires
        frame.scene.fits(),
        frame.is_shown(sheet),
        frame.draws_paths() ==> sheet.rasterized == vertex_count(frame.scene.paths@),
    ensures
        does(
            frame,
            sheet,
            renderer.shapes_plan(frame.scene, frame.viewport),
            wanted,
            if_wanted(wanted, Pipeline::Shadow, frame.primitives(Pipeline::Shadow)) + if_wanted(
                wanted,
                Pipeline::PathSprite,
                frame.primitives(Pipeline::PathSprite),
            ) + if_wanted(wanted, Pipeline::Quad, frame.primitives(Pipeline::Quad)) + if_wanted(
                wanted,
                Pipeline::Underline,
                frame.primitives(Pipeline::Underline),
            ),
        ),
{
    let scene = frame.scene;
    let viewport = frame.viewport;
    let one = renderer.shadows_plan(scene, viewport);
    let two = renderer.paths_from_plan(scene, viewport);
    let three = renderer.quads_plan(scene, viewport);
    let four = renderer.underlines_plan(scene, viewport);
    let a = if_wanted(wanted, Pipeline::Shadow, frame.primitives(Pipeline::Shadow));
    let b = if_wanted(wanted, Pipeline::PathSprite, frame.primitives(Pipeline::PathSprite));
    let c = if_wanted(wanted, Pipeline::Quad, frame.primitives(Pipeline::Quad));
    let d = if_wanted(wanted, Pipeline::Underline, frame.primitives(Pipeline::Underline));
    lemma_vertex_count(scene.paths@);
    if scene.shadows == 0 {
        lemma_preparation(frame, sheet, one, wanted);
    } else {
        lemma_instances(
            frame,
            sheet,
            wanted,
            Buffer::Shadows,
            Pipeline::Shadow,
            renderer.shadows_capacity,
            scene.shadows,
        );
    }
    let after_one = sheet.run(one);
    if frame.draws_paths() {
        lemma_path_sprites(frame, after_one, wanted, renderer.path_sprites_capacity);
    } else {
        lemma_preparation(frame, after_one, two, wanted);
    }
    lemma_join(frame, sheet, one, two, wanted, a, b);
    let after_two = sheet.run(one + two);
    if scene.quads == 0 {
        lemma_preparation(frame, after_two, three, wanted);
    } else {
        lemma_instances(
            frame,
            after_two,
            wanted,
            Buffer::Quads,
            Pipeline::Quad,
            renderer.quads_capacity,
            scene.quads,
        );
    }
    lemma_join(frame, sheet, one + two, three, wanted, a + b, c);
    let after_three = sheet.run(one + two + three);
    if scene.underlines == 0 {
        lemma_preparation(frame, after_three, four, wanted);
    } else {
        lemma_instances(
            frame,
            after_three,
            wanted,
            Buffer::Underlines,
            Pipeline::Underline,
            renderer.underlines_capacity,
            scene.underlines,
        );
    }
    lemma_join(frame, sheet, one + two + three, four, wanted, a + b + c, d);
}

proof fn lemma_images(renderer: Metal4Renderer, frame: FrameView, sheet: Sheet, wanted: Wanted)
    requires
        frame.scene.fits(),
        frame.scene.surfaces@.len() <= usize::MAX,
        frame.is_shown(sheet),
        frame.number == renderer.frame_number,
    ensures
        does(
            frame,
            sheet,
            renderer.images_plan(frame.scene, frame.viewport),
            wanted,
            if_wanted(
                wanted,
                Pipeline::MonochromeSprite,
                frame.primitives(Pipeline::MonochromeSprite),
            ) + if_wanted(
                wanted,
                Pipeline::PolychromeSprite,
                frame.primitives(Pipeline::PolychromeSprite),
            ) + shown_first(frame, wanted, frame.scene.surfaces@.len()),
        ),
{
    let scene = frame.scene;
    let viewport = frame.viewport;
    let one = renderer.monochrome_plan(scene, viewport);
    let two = renderer.polychrome_plan(scene, viewport);
    let three = renderer.surfaces_plan(scene, viewport);
    let a = if_wanted(
        wanted,
        Pipeline::MonochromeSprite,
        frame.primitives(Pipeline::MonochromeSprite),
    );
    let b = if_wanted(
        wanted,
        Pipeline::PolychromeSprite,
        frame.primitives(Pipeline::PolychromeSprite),
    );
    if scene.monochrome_sprites@.len() == 0 {
        lemma_preparation(frame, sheet, one, wanted);
    } else {
        lemma_sprites(
            frame,
            sheet,
            wanted,
            Buffer::MonochromeSprites,
            Pipeline::MonochromeSprite,
            renderer.monochrome_sprites_capacity,
            renderer.resident_atlas_texture,
            scene.monochrome_sprites@,
        );
    }
    let after_one = sheet.run(one);
    if scene.polychrome_sprites@.len() == 0 {
        lemma_preparation(frame, after_one, two, wanted);
    } else {
        lemma_sprites(
            frame,
            after_one,
            wanted,
            Buffer::PolychromeSprites,
            Pipeline::PolychromeSprite,
            renderer.polychrome_sprites_capacity,
            renderer.atlas_after_monochrome(scene),
            scene.polychrome_sprites@,
        );
    }
    lemma_join(frame, sheet, one, two, wanted, a, b);
    lemma_surfaces(
        frame,
        sheet.run(one + two),
        wanted,
        renderer.surface_textures_in_residency@,
    );
    lemma_join(
        frame,
        sheet,
        one + two,
        three,
        wanted,
        a + b,
        shown_first(frame, wanted, scene.surfaces@.len()),
    );
}

/// What the wanted draws of a frame are.
spec fn wanted_of(frame: FrameView, wanted: Wanted) -> int {
    match wanted {
        Wanted::With(Pipeline::Surface) => shown_first(frame, wanted, frame.scene.surfaces@.len()),
        Wanted::With(pipeline) => frame.primitives(pipeline),
        Wanted::Showing(_) => shown_first(frame, wanted, frame.scene.surfaces@.len()),
    }
}

proof fn lemma_frame(renderer: Metal4Renderer, frame: FrameView, sheet: Sheet, wanted: Wanted)
    requires
        frame.scene.fits(),
        frame.scene.surfaces@.len() <= usize::MAX,
        renderer.frame_number < u64::MAX,
        frame.number == renderer.frame_number + 1,
    ensures
        ({
            let plan = renderer.frame_plan(
                frame.scene,
                frame.viewport,
                frame.target,
                frame.opaque,
            );
            &&& sheet.is_right(plan, plan.len(), frame)
            &&& sheet.drawn(plan, plan.len(), wanted) == wanted_of(frame, wanted)
        }),
{
    let opening = renderer.opening_plan(frame.scene, frame.viewport);
    let opened = renderer.opened(frame.scene, frame.viewport);
    let begin = seq![
        Command::BeginPass { target: frame.target, opaque: frame.opaque },
        Command::SetViewport { width: frame.viewport.width, height: frame.viewport.height },
    ];
    let shapes = opened.shapes_plan(frame.scene, frame.viewport);
    let images = opened.images_plan(frame.scene, frame.viewport);
    let end = seq![Command::EndPass, Command::EndCommandBuffer];
    lemma_opening(renderer, frame, sheet, wanted);
    let drawn = sheet.run(opening);
    let pass = begin + (shapes + images) + end;
    lemma_back(sheet, opening, pass, pass.len(), wanted, frame);
    lemma_back(drawn, begin + (shapes + images), end, end.len(), wanted, frame);
    lemma_back(drawn, begin, shapes + images, (shapes + images).len(), wanted, frame);
    lemma_quiet(drawn, begin, begin.len(), wanted, frame);
    let begun = drawn.run(begin);
    assert(frame.is_shown(begun) && begun.rasterized == drawn.rasterized) by {
        reveal_with_fuel(Sheet::after, 3);
    }
    lemma_shapes(opened, frame, begun, wanted);
    lemma_back(begun, shapes, images, images.len(), wanted, frame);
    lemma_images(opened, frame, begun.run(shapes), wanted);
    let done = drawn.run(begin + (shapes + images));
    lemma_quiet(done, end, end.len(), wanted, frame);
    lemma_shown_elsewhere(frame, wanted, frame.scene.surfaces@.len());
}

proof fn lemma_shown_elsewhere(frame: FrameView, wanted: Wanted, count: nat)
    ensures
        wanted matches Wanted::With(pipeline) ==> !(pipeline is Surface) ==> shown_first(
            frame,
            wanted,
            count,
        ) == 0,
    decreases count,
{
    if count > 0 {
        lemma_shown_elsewhere(frame, wanted, (count - 1) as nat);
    }
}

proof fn lemma_shown_count(frame: FrameView, count: nat)
    requires
        count <= frame.scene.surfaces@.len(),
    ensures
        shown_first(frame, Wanted::With(Pipeline::Surface), count) == shown_count(
            frame.scene.surfaces@.take(count as int),
        ),
    decreases count,
{
    let all = frame.scene.surfaces@.take(count as int);
    if count > 0 {
        assert(all.drop_last() =~= frame.scene.surfaces@.take(count - 1));
        assert(all.last() == frame.scene.surfaces@[count - 1]);
        lemma_shown_count(frame, (count - 1) as nat);
    }
}

proof fn lemma_shown_one(frame: FrameView, surface: int, count: nat)
    requires
        0 <= surface < frame.scene.surfaces@.len() <= usize::MAX,
        count <= frame.scene.surfaces@.len(),
    ensures
        shown_first(
            frame,
            Wanted::Showing(frame.plane(surface as usize, Plane::Luma)),
            count,
        ) == if surface < count && shows(frame.scene.surfaces@[surface]) {
            1int
        } else {
            0
        },
    decreases count,
{
    if count > 0 {
        lemma_shown_one(frame, surface, (count - 1) as nat);
        assert(surface as usize == (count - 1) as usize ==> surface == count - 1);
    }
}

/// The commands around a frame draw nothing.
proof fn lemma_around(
    frame: FrameView,
    sheet: Sheet,
    before: Seq<Command>,
    plan: Seq<Command>,
    after: Seq<Command>,
    wanted: Wanted,
    count: int,
)
    requires
        forall|i: int| 0 <= i < before.len() ==> !(#[trigger] before[i] is Draw),
        forall|i: int| 0 <= i < after.len() ==> !(#[trigger] after[i] is Draw),
        sheet.run(before).is_right(plan, plan.len(), frame),
        sheet.run(before).drawn(plan, plan.len(), wanted) == count,
    ensures
        sheet.is_right(before + plan + after, (before + plan + after).len(), frame),
        sheet.drawn(before + plan + after, (before + plan + after).len(), wanted) == count,
{
    lemma_quiet(sheet, before, before.len(), wanted, frame);
    lemma_back(sheet, before, plan, plan.len(), wanted, frame);
    lemma_back(sheet, before + plan, after, after.len(), wanted, frame);
    lemma_quiet(sheet.run(before + plan), after, after.len(), wanted, frame);
}

proof fn lemma_draw(
    renderer: Metal4Renderer,
    scene: Scene,
    viewport: Size<i32>,
    sheet: Sheet,
    wanted: Wanted,
)
    requires
        renderer.has_layer,
        renderer.frame_number < u64::MAX,
        scene.fits(),
        scene.surfaces@.len() <= usize::MAX,
    ensures
        ({
            let plan = renderer.draw_plan(scene, Some(viewport));
            let frame = shown_frame(renderer, scene, viewport);
            &&& sheet.is_right(plan, plan.len(), frame)
            &&& sheet.drawn(plan, plan.len(), wanted) == wanted_of(frame, wanted)
        }),
{
    let frame = shown_frame(renderer, scene, viewport);
    let plan = renderer.frame_plan(scene, viewport, Target::Drawable, renderer.opaque);
    let submission = seq![
        Command::WaitForDrawable,
        Command::CommitFrame,
        Command::SignalDrawable,
        Command::Present,
        Command::SignalFrame((renderer.frame_number + 1) as u64),
    ];
    let none = Seq::<Command>::empty();
    lemma_frame(renderer, frame, sheet, wanted);
    lemma_around(frame, sheet, none, plan, submission, wanted, wanted_of(frame, wanted));
    assert(none + plan + submission =~= plan + submission);
}

proof fn lemma_image(
    renderer: Metal4Renderer,
    scene: Scene,
    size: Size<i32>,
    sheet: Sheet,
    wanted: Wanted,
)
    requires
        renderer.frame_number < u64::MAX,
        scene.fits(),
        scene.surfaces@.len() <= usize::MAX,
    ensures
        ({
            let plan = renderer.image_plan(scene, size);
            let frame = offscreen_frame(renderer, scene, size);
            &&& sheet.is_right(plan, plan.len(), frame)
            &&& sheet.drawn(plan, plan.len(), wanted) == wanted_of(frame, wanted)
        }),
{
    let frame = offscreen_frame(renderer, scene, size);
    let create = seq![
        Command::CreateOffscreen { width: size.width, height: size.height },
        Command::AddTexture(Texture::Offscreen),
        Command::CommitResidency,
    ];
    let plan = renderer.frame_plan(scene, size, Target::Offscreen, true);
    let submission = seq![
        Command::CommitFrame,
        Command::SignalFrame((renderer.frame_number + 1) as u64),
    ];
    lemma_frame(renderer, frame, sheet.run(create), wanted);
    lemma_around(frame, sheet, create, plan, submission, wanted, wanted_of(frame, wanted));
}

// ---- laws --------------------------------------------------------------------------------------

/// The next frame of a renderer, on its layer.
pub open spec fn shown_frame(
    renderer: Metal4Renderer,
    scene: Scene,
    viewport: Size<i32>,
) -> FrameView {
    FrameView {
        scene,
        viewport,
        target: Target::Drawable,
        opaque: renderer.opaque,
        number: (renderer.frame_number + 1) as u64,
    }
}

/// The next frame of a renderer, for an image, on opaque black.
pub open spec fn offscreen_frame(
    renderer: Metal4Renderer,
    scene: Scene,
    size: Size<i32>,
) -> FrameView {
    FrameView {
        scene,
        viewport: size,
        target: Target::Offscreen,
        opaque: true,
        number: (renderer.frame_number + 1) as u64,
    }
}

/// The instances that a list of commands draws with a pipeline, whatever came before it.
pub open spec fn instances_with(sheet: Sheet, plan: Seq<Command>, pipeline: Pipeline) -> int {
    sheet.drawn(plan, plan.len(), Wanted::With(pipeline))
}

/// Every primitive of a scene is drawn, and once: the instances that a frame draws of each kind add up
/// to the primitives of that kind. Paths are rasterized in one draw and composited one by one, where
/// the viewport has an area and they have vertices. Of the surfaces those are drawn that are in the
/// supported format and have textures of both planes.
pub proof fn law_every_primitive_is_drawn_once(
    renderer: Metal4Renderer,
    scene: Scene,
    viewport: Size<i32>,
    plan: Seq<Command>,
    sheet: Sheet,
)
    requires
        renderer.frame_number < u64::MAX,
        scene.fits(),
        scene.surfaces@.len() <= usize::MAX,
        (renderer.has_layer && plan == renderer.draw_plan(scene, Some(viewport))) || plan
            == renderer.image_plan(scene, viewport),
    ensures
        instances_with(sheet, plan, Pipeline::Quad) == scene.quads,
        instances_with(sheet, plan, Pipeline::Shadow) == scene.shadows,
        instances_with(sheet, plan, Pipeline::Underline) == scene.underlines,
        instances_with(sheet, plan, Pipeline::MonochromeSprite) == scene.monochrome_sprites@.len(),
        instances_with(sheet, plan, Pipeline::PolychromeSprite) == scene.polychrome_sprites@.len(),
        viewport.width > 0 && viewport.height > 0 && vertex_count(scene.paths@) > 0
            ==> instances_with(sheet, plan, Pipeline::PathRasterization) == 1 && instances_with(
            sheet,
            plan,
            Pipeline::PathSprite,
        ) == scene.paths@.len(),
        viewport.width <= 0 || viewport.height <= 0 || vertex_count(scene.paths@) == 0
            ==> instances_with(sheet, plan, Pipeline::PathRasterization) == 0 && instances_with(
            sheet,
            plan,
            Pipeline::PathSprite,
        ) == 0,
        instances_with(sheet, plan, Pipeline::Surface) == shown_count(scene.surfaces@),
        forall|surface: int|
            0 <= surface < scene.surfaces@.len() ==> sheet.drawn(
                plan,
                plan.len(),
                #[trigger] showing(renderer, surface),
            ) == if shows(scene.surfaces@[surface]) {
                1int
            } else {
                0
            },
{
    let is_draw = renderer.has_layer && plan == renderer.draw_plan(scene, Some(viewport));
    let frame = if is_draw {
        shown_frame(renderer, scene, viewport)
    } else {
        offscreen_frame(renderer, scene, viewport)
    };
    lemma_counts(renderer, scene, viewport, plan, sheet, frame, is_draw, Pipeline::Quad);
    lemma_counts(renderer, scene, viewport, plan, sheet, frame, is_draw, Pipeline::Shadow);
    lemma_counts(renderer, scene, viewport, plan, sheet, frame, is_draw, Pipeline::Underline);
    lemma_counts(renderer, scene, viewport, plan, sheet, frame, is_draw, Pipeline::MonochromeSprite);
    lemma_counts(renderer, scene, viewport, plan, sheet, frame, is_draw, Pipeline::PolychromeSprite);
    lemma_counts(
        renderer,
        scene,
        viewport,
        plan,
        sheet,
        frame,
        is_draw,
        Pipeline::PathRasterization,
    );
    lemma_counts(renderer, scene, viewport, plan, sheet, frame, is_draw, Pipeline::PathSprite);
    lemma_counts(renderer, scene, viewport, plan, sheet, frame, is_draw, Pipeline::Surface);
    lemma_vertex_count(scene.paths@);
    assert forall|surface: int| 0 <= surface < scene.surfaces@.len() implies sheet.drawn(
        plan,
        plan.len(),
        #[trigger] showing(renderer, surface),
    ) == if shows(scene.surfaces@[surface]) {
        1int
    } else {
        0
    } by {
        let wanted = showing(renderer, surface);
        lemma_shown_one(frame, surface, scene.surfaces@.len());
        if is_draw {
            lemma_draw(renderer, scene, viewport, sheet, wanted);
        } else {
            lemma_image(renderer, scene, viewport, sheet, wanted);
        }
    }
}

proof fn lemma_counts(
    renderer: Metal4Renderer,
    scene: Scene,
    viewport: Size<i32>,
    plan: Seq<Command>,
    sheet: Sheet,
    frame: FrameView,
    is_draw: bool,
    pipeline: Pipeline,
)
    requires
        renderer.frame_number < u64::MAX,
        scene.fits(),
        scene.surfaces@.len() <= usize::MAX,
        is_draw ==> renderer.has_layer && plan == renderer.draw_plan(scene, Some(viewport)) && frame
            == shown_frame(renderer, scene, viewport),
        !is_draw ==> plan == renderer.image_plan(scene, viewport) && frame == offscreen_frame(
            renderer,
            scene,
            viewport,
        ),
    ensures
        instances_with(sheet, plan, pipeline) == frame.primitives(pipeline),
{
    let wanted = Wanted::With(pipeline);
    if is_draw {
        lemma_draw(renderer, scene, viewport, sheet, wanted);
    } else {
        lemma_image(renderer, scene, viewport, sheet, wanted);
    }
    lemma_shown_count(frame, scene.surfaces@.len());
    assert(scene.surfaces@.take(scene.surfaces@.len() as int) =~= scene.surfaces@);
}

/// The draws that show a surface of the renderer's next frame.
pub open spec fn showing(renderer: Metal4Renderer, surface: int) -> Wanted {
    Wanted::Showing(
        Texture::Surface {
            frame: (renderer.frame_number + 1) as u64,
            surface: surface as usize,
            plane: Plane::Luma,
        },
    )
}

/// Every draw of a frame reads what was prepared for it. It has the six corners of the unit square for
/// each of its instances, which are the primitives of its kind; as many items were written to the
/// buffer that it reads them from; and it reads the size of the viewport that it is drawn to. Sprites
/// sample the atlas texture of the first of them, surfaces their own two planes, and composited paths
/// the texture into which all their vertices were rasterized before.
pub proof fn law_draws_read_what_was_prepared(
    renderer: Metal4Renderer,
    scene: Scene,
    viewport: Size<i32>,
    sheet: Sheet,
)
    requires
        renderer.frame_number < u64::MAX,
        scene.fits(),
        scene.surfaces@.len() <= usize::MAX,
    ensures
        renderer.has_layer ==> sheet.is_right(
            renderer.draw_plan(scene, Some(viewport)),
            renderer.draw_plan(scene, Some(viewport)).len(),
            shown_frame(renderer, scene, viewport),
        ),
        sheet.is_right(
            renderer.image_plan(scene, viewport),
            renderer.image_plan(scene, viewport).len(),
            offscreen_frame(renderer, scene, viewport),
        ),
{
    let wanted = Wanted::With(Pipeline::Quad);
    if renderer.has_layer {
        lemma_draw(renderer, scene, viewport, sheet, wanted);
    }
    lemma_image(renderer, scene, viewport, sheet, wanted);
}

/// The vertices of paths are those of the paths, in order, each where it was and with the colour and the
/// visible bounds of its own path.
pub proof fn law_vertices_carry_their_paths(front: Seq<Path>, path: Path, back: Seq<Path>, i: int)
    requires
        0 <= i < path.vertices@.len(),
    ensures
        ({
            let all = all_vertices(front.push(path) + back);
            let vertex = all[vertex_count(front) + i];
            &&& all.len() == vertex_count(front) + path.vertices@.len() + vertex_count(back)
            &&& vertex.xy_position.x == path.vertices@[i].xy_position.x
            &&& vertex.xy_position.y == path.vertices@[i].xy_position.y
            &&& vertex.st_position.x == path.vertices@[i].st_position.x
            &&& vertex.st_position.y == path.vertices@[i].st_position.y
            &&& vertex.color == path.color
            &&& vertex.bounds == path.clipped_bounds
        }),
    decreases back.len(),
{
    let paths = front.push(path) + back;
    lemma_vertex_count(front);
    lemma_vertex_count(back);
    if back.len() == 0 {
        assert(paths =~= front.push(path));
        assert(paths.drop_last() =~= front);
    } else {
        assert(paths.drop_last() =~= front.push(path) + back.drop_last());
        lemma_vertex_count(back.drop_last());
        law_vertices_carry_their_paths(front, path, back.drop_last(), i);
    }
}

} // verus!
