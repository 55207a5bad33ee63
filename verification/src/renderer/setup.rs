//! Setting up the Metal 4 renderer: the device, the resources and the pipelines.

use crate::geometry::Size;
use crate::renderer::gpu::{
    Blend, BlendFactor, Buffer, Command, Pipeline, Report, Texture, BUFFER_SLOTS, TEXTURE_SLOTS,
};
use crate::renderer::metal4_renderer::{
    path_textures_plan, Metal4Renderer, MAX_PATH_VERTICES_INITIAL, MAX_QUADS_PER_FRAME_INITIAL, PATH_SAMPLE_COUNT,
};
use vstd::prelude::*;

verus! {

// ---- devices -----------------------------------------------------------------------------------

/// What the choice among graphics devices goes by.
#[derive(Clone, Copy, Debug, PartialEq, Eq, Structural)]
pub struct DeviceTraits {
    pub removable: bool,
    pub low_power: bool,
}

impl DeviceTraits {
    /// How far the device is from the best kind: one that is built in and of low power.
    pub open spec fn spec_rank(self) -> int {
        (if self.removable {
            2int
        } else {
            0int
        }) + (if self.low_power {
            0int
        } else {
            1int
        })
    }

    fn rank(&self) -> (r: u8)
        ensures
            r == self.spec_rank(),
    {
        let removable: u8 = if self.removable {
            2
        } else {
            0
        };
        let power: u8 = if self.low_power {
            0
        } else {
            1
        };
        removable + power
    }
}

/// Chooses the first device of the best kind. With no devices there is nothing to choose, and the
/// system's default has to do.
pub fn choose_device(devices: &Vec<DeviceTraits>) -> (r: Option<usize>)
    ensures
        r is None == (devices@.len() == 0),
        r matches Some(chosen) ==> {
            &&& chosen < devices@.len()
            &&& forall|i: int|
                0 <= i < devices@.len() ==> devices@[chosen as int].spec_rank()
                    <= #[trigger] devices@[i].spec_rank()
            &&& forall|i: int|
                0 <= i < chosen ==> devices@[chosen as int].spec_rank()
                    < #[trigger] devices@[i].spec_rank()
        },
{
    if devices.len() == 0 {
        return None;
    }
    let mut chosen: usize = 0;
    let mut i: usize = 1;
    while i < devices.len()
        invariant
            chosen < i <= devices@.len(),
            forall|j: int|
                0 <= j < i ==> devices@[chosen as int].spec_rank()
                    <= #[trigger] devices@[j].spec_rank(),
            forall|j: int|
                0 <= j < chosen ==> devices@[chosen as int].spec_rank()
                    < #[trigger] devices@[j].spec_rank(),
        decreases devices@.len() - i,
    {
        if devices[i].rank() < devices[chosen].rank() {
            chosen = i;
        }
        i = i + 1;
    }
    Some(chosen)
}

// ---- pipelines ---------------------------------------------------------------------------------

/// The blending of a pipeline's colours with what is in the target.
///
/// The colours of sprites of paths are premultiplied. Triangles of paths may overlap before they
/// are sampled, so their alpha is blended too.
pub open spec fn blend_of(pipeline: Pipeline) -> Blend {
    match pipeline {
        Pipeline::PathSprite => Blend {
            source_rgb: BlendFactor::One,
            source_alpha: BlendFactor::One,
            destination_rgb: BlendFactor::OneMinusSourceAlpha,
            destination_alpha: BlendFactor::One,
        },
        Pipeline::PathRasterization => Blend {
            source_rgb: BlendFactor::One,
            source_alpha: BlendFactor::One,
            destination_rgb: BlendFactor::OneMinusSourceAlpha,
            destination_alpha: BlendFactor::OneMinusSourceAlpha,
        },
        _ => Blend {
            source_rgb: BlendFactor::SourceAlpha,
            source_alpha: BlendFactor::One,
            destination_rgb: BlendFactor::OneMinusSourceAlpha,
            destination_alpha: BlendFactor::One,
        },
    }
}

/// The samples per pixel that a pipeline declares.
pub open spec fn samples_of(pipeline: Pipeline) -> Option<u32> {
    match pipeline {
        Pipeline::PathRasterization => Some(PATH_SAMPLE_COUNT),
        _ => None,
    }
}

pub open spec fn compilation(pipeline: Pipeline) -> Command {
    Command::CompilePipeline {
        pipeline,
        blend: blend_of(pipeline),
        sample_count: samples_of(pipeline),
    }
}

/// A pipeline that blends by the alpha of its source.
fn compile_pipeline(pipeline: Pipeline) -> (r: Command)
    requires
        pipeline != Pipeline::PathSprite,
        pipeline != Pipeline::PathRasterization,
    ensures
        r == compilation(pipeline),
{
    Command::CompilePipeline {
        pipeline,
        blend: Blend {
            source_rgb: BlendFactor::SourceAlpha,
            source_alpha: BlendFactor::One,
            destination_rgb: BlendFactor::OneMinusSourceAlpha,
            destination_alpha: BlendFactor::One,
        },
        sample_count: None,
    }
}

fn compile_path_sprite_pipeline() -> (r: Command)
    ensures
        r == compilation(Pipeline::PathSprite),
{
    Command::CompilePipeline {
        pipeline: Pipeline::PathSprite,
        blend: Blend {
            source_rgb: BlendFactor::One,
            source_alpha: BlendFactor::One,
            destination_rgb: BlendFactor::OneMinusSourceAlpha,
            destination_alpha: BlendFactor::One,
        },
        sample_count: None,
    }
}

fn compile_path_rasterization_pipeline() -> (r: Command)
    ensures
        r == compilation(Pipeline::PathRasterization),
{
    Command::CompilePipeline {
        pipeline: Pipeline::PathRasterization,
        blend: Blend {
            source_rgb: BlendFactor::One,
            source_alpha: BlendFactor::One,
            destination_rgb: BlendFactor::OneMinusSourceAlpha,
            destination_alpha: BlendFactor::OneMinusSourceAlpha,
        },
        sample_count: Some(PATH_SAMPLE_COUNT),
    }
}

/// The names of the vertex and fragment functions of a pipeline in the shader library.
pub open spec fn function_names(pipeline: Pipeline) -> (Seq<char>, Seq<char>) {
    match pipeline {
        Pipeline::Quad => ("quad_vertex"@, "quad_fragment"@),
        Pipeline::Underline => ("underline_vertex"@, "underline_fragment"@),
        Pipeline::Shadow => ("shadow_vertex"@, "shadow_fragment"@),
        Pipeline::MonochromeSprite => (
            "monochrome_sprite_vertex"@,
            "monochrome_sprite_fragment"@,
        ),
        Pipeline::PolychromeSprite => (
            "polychrome_sprite_vertex"@,
            "polychrome_sprite_fragment"@,
        ),
        Pipeline::PathRasterization => (
            "path_rasterization_vertex"@,
            "path_rasterization_fragment"@,
        ),
        Pipeline::PathSprite => ("path_sprite_vertex"@, "path_sprite_fragment"@),
        Pipeline::Surface => ("surface_vertex"@, "surface_fragment"@),
    }
}

/// The names of the vertex and fragment functions of a pipeline in the shader library.
pub fn shader_functions(pipeline: Pipeline) -> (r: (&'static str, &'static str))
    ensures
        r.0@ == function_names(pipeline).0,
        r.1@ == function_names(pipeline).1,
{
    match pipeline {
        Pipeline::Quad => ("quad_vertex", "quad_fragment"),
        Pipeline::Underline => ("underline_vertex", "underline_fragment"),
        Pipeline::Shadow => ("shadow_vertex", "shadow_fragment"),
        Pipeline::MonochromeSprite => ("monochrome_sprite_vertex", "monochrome_sprite_fragment"),
        Pipeline::PolychromeSprite => ("polychrome_sprite_vertex", "polychrome_sprite_fragment"),
        Pipeline::PathRasterization => (
            "path_rasterization_vertex",
            "path_rasterization_fragment",
        ),
        Pipeline::PathSprite => ("path_sprite_vertex", "path_sprite_fragment"),
        Pipeline::Surface => ("surface_vertex", "surface_fragment"),
    }
}

// ---- the renderer ------------------------------------------------------------------------------

/// Makes a buffer and makes it resident at once.
pub open spec fn buffer_plan(buffer: Buffer, capacity: usize) -> Seq<Command> {
    seq![
        Command::CreateBuffer { buffer, capacity },
        Command::AddBuffer(buffer),
        Command::CommitResidency,
    ]
}

/// The objects of the device, and the buffers that are resident before the queue knows the
/// residency set.
pub open spec fn device_plan() -> Seq<Command> {
    seq![
        Command::CreateQueue,
        Command::CreateCommandBuffer,
        Command::CreateAllocator,
        Command::CreateArgumentTable { buffers: BUFFER_SLOTS, textures: TEXTURE_SLOTS },
        Command::CreateResidencySet,
        Command::CreateFrameEvent,
        Command::CreateBuffer { buffer: Buffer::UnitVertices, capacity: 6 },
        Command::CreateBuffer { buffer: Buffer::ViewportSize, capacity: 1 },
        Command::CreateBuffer { buffer: Buffer::Quads, capacity: MAX_QUADS_PER_FRAME_INITIAL },
        Command::AddBuffer(Buffer::UnitVertices),
        Command::AddBuffer(Buffer::ViewportSize),
        Command::AddBuffer(Buffer::Quads),
        Command::CommitResidency,
        Command::AddResidencySetToQueue,
    ]
}

/// The residency of the layer's drawables. `layer` says, where there is a layer, whether it has a
/// residency set.
pub open spec fn layer_plan(layer: Option<bool>) -> Seq<Command> {
    match layer {
        Some(true) => seq![Command::AddLayerResidencySetToQueue],
        Some(false) => seq![Command::Report(Report::NoLayerResidency)],
        None => seq![],
    }
}

pub open spec fn buffers_plan() -> Seq<Command> {
    buffer_plan(Buffer::Underlines, MAX_QUADS_PER_FRAME_INITIAL) + buffer_plan(
        Buffer::Shadows,
        MAX_QUADS_PER_FRAME_INITIAL,
    ) + buffer_plan(Buffer::MonochromeSprites, MAX_QUADS_PER_FRAME_INITIAL) + buffer_plan(
        Buffer::PolychromeSprites,
        MAX_QUADS_PER_FRAME_INITIAL,
    ) + buffer_plan(Buffer::PathVertices, MAX_PATH_VERTICES_INITIAL) + buffer_plan(
        Buffer::PathSprites,
        MAX_QUADS_PER_FRAME_INITIAL,
    ) + buffer_plan(Buffer::SurfaceBounds, 1) + seq![Command::CreateTextureCache] + buffer_plan(
        Buffer::AtlasSize,
        1,
    )
}

pub open spec fn pipelines_plan() -> Seq<Command> {
    seq![
        Command::LoadShaders,
        Command::CreateCompiler,
        compilation(Pipeline::Quad),
        compilation(Pipeline::Underline),
        compilation(Pipeline::Shadow),
        compilation(Pipeline::MonochromeSprite),
        compilation(Pipeline::PolychromeSprite),
        compilation(Pipeline::PathRasterization),
        compilation(Pipeline::PathSprite),
        compilation(Pipeline::Surface),
    ]
}

pub open spec fn setup_plan(layer: Option<bool>) -> Seq<Command> {
    device_plan() + layer_plan(layer) + buffers_plan() + pipelines_plan()
}

/// A renderer that has drawn nothing yet.
pub open spec fn is_new(renderer: Metal4Renderer, has_layer: bool, opaque: bool) -> bool {
    &&& renderer.surface_textures_in_residency@ == Seq::<Texture>::empty()
    &&& renderer == Metal4Renderer {
        has_layer,
        opaque,
        quads_capacity: MAX_QUADS_PER_FRAME_INITIAL,
        underlines_capacity: MAX_QUADS_PER_FRAME_INITIAL,
        shadows_capacity: MAX_QUADS_PER_FRAME_INITIAL,
        monochrome_sprites_capacity: MAX_QUADS_PER_FRAME_INITIAL,
        polychrome_sprites_capacity: MAX_QUADS_PER_FRAME_INITIAL,
        path_vertices_capacity: MAX_PATH_VERTICES_INITIAL,
        path_sprites_capacity: MAX_QUADS_PER_FRAME_INITIAL,
        path_intermediate_size: None,
        surface_textures_in_residency: renderer.surface_textures_in_residency,
        resident_atlas_texture: None,
        frame_number: 0,
    }
}

fn create_buffer(buffer: Buffer, capacity: usize, out: &mut Vec<Command>)
    ensures
        final(out)@ == old(out)@ + buffer_plan(buffer, capacity),
{
    out.push(Command::CreateBuffer { buffer, capacity });
    out.push(Command::AddBuffer(buffer));
    out.push(Command::CommitResidency);
}

fn create_device_objects(out: &mut Vec<Command>)
    ensures
        final(out)@ == old(out)@ + device_plan(),
{
    out.push(Command::CreateQueue);
    out.push(Command::CreateCommandBuffer);
    out.push(Command::CreateAllocator);
    out.push(Command::CreateArgumentTable { buffers: BUFFER_SLOTS, textures: TEXTURE_SLOTS });
    out.push(Command::CreateResidencySet);
    out.push(Command::CreateFrameEvent);
    out.push(Command::CreateBuffer { buffer: Buffer::UnitVertices, capacity: 6 });
    out.push(Command::CreateBuffer { buffer: Buffer::ViewportSize, capacity: 1 });
    out.push(
        Command::CreateBuffer { buffer: Buffer::Quads, capacity: MAX_QUADS_PER_FRAME_INITIAL },
    );
    out.push(Command::AddBuffer(Buffer::UnitVertices));
    out.push(Command::AddBuffer(Buffer::ViewportSize));
    out.push(Command::AddBuffer(Buffer::Quads));
    out.push(Command::CommitResidency);
    out.push(Command::AddResidencySetToQueue);
}

fn create_buffers(out: &mut Vec<Command>)
    ensures
        final(out)@ == old(out)@ + buffers_plan(),
{
    create_buffer(Buffer::Underlines, MAX_QUADS_PER_FRAME_INITIAL, out);
    create_buffer(Buffer::Shadows, MAX_QUADS_PER_FRAME_INITIAL, out);
    create_buffer(Buffer::MonochromeSprites, MAX_QUADS_PER_FRAME_INITIAL, out);
    create_buffer(Buffer::PolychromeSprites, MAX_QUADS_PER_FRAME_INITIAL, out);
    create_buffer(Buffer::PathVertices, MAX_PATH_VERTICES_INITIAL, out);
    create_buffer(Buffer::PathSprites, MAX_QUADS_PER_FRAME_INITIAL, out);
    create_buffer(Buffer::SurfaceBounds, 1, out);
    out.push(Command::CreateTextureCache);
    create_buffer(Buffer::AtlasSize, 1, out);
}

fn compile_pipelines(out: &mut Vec<Command>)
    ensures
        final(out)@ == old(out)@ + pipelines_plan(),
{
    out.push(Command::LoadShaders);
    out.push(Command::CreateCompiler);
    out.push(compile_pipeline(Pipeline::Quad));
    out.push(compile_pipeline(Pipeline::Underline));
    out.push(compile_pipeline(Pipeline::Shadow));
    out.push(compile_pipeline(Pipeline::MonochromeSprite));
    out.push(compile_pipeline(Pipeline::PolychromeSprite));
    out.push(compile_path_rasterization_pipeline());
    out.push(compile_path_sprite_pipeline());
    out.push(compile_pipeline(Pipeline::Surface));
}

impl Metal4Renderer {
    /// What the layer is told, where there is one.
    pub open spec fn told<T>(self, value: T) -> Option<T> {
        if self.has_layer {
            Some(value)
        } else {
            None
        }
    }

    /// A renderer for a layer, which may have a residency set.
    pub fn new(transparent: bool, layer_residency: bool, out: &mut Vec<Command>) -> (r: Self)
        ensures
            r.wf(),
            is_new(r, true, !transparent),
            final(out)@ == old(out)@ + setup_plan(Some(layer_residency)),
    {
        Self::new_internal(Some(layer_residency), !transparent, out)
    }

    /// A renderer without a layer, for offscreen frames.
    pub fn new_headless(out: &mut Vec<Command>) -> (r: Self)
        ensures
            r.wf(),
            is_new(r, false, true),
            final(out)@ == old(out)@ + setup_plan(None),
    {
        Self::new_internal(None, true, out)
    }

    fn new_internal(layer: Option<bool>, opaque: bool, out: &mut Vec<Command>) -> (r: Self)
        ensures
            r.wf(),
            is_new(r, layer is Some, opaque),
            final(out)@ == old(out)@ + setup_plan(layer),
    {
        create_device_objects(out);
        if let Some(has_residency_set) = layer {
            if has_residency_set {
                out.push(Command::AddLayerResidencySetToQueue);
            } else {
                out.push(Command::Report(Report::NoLayerResidency));
            }
        }
        assert(out@ =~= old(out)@ + (device_plan() + layer_plan(layer)));
        create_buffers(out);
        compile_pipelines(out);
        Metal4Renderer {
            has_layer: layer.is_some(),
            opaque,
            quads_capacity: MAX_QUADS_PER_FRAME_INITIAL,
            underlines_capacity: MAX_QUADS_PER_FRAME_INITIAL,
            shadows_capacity: MAX_QUADS_PER_FRAME_INITIAL,
            monochrome_sprites_capacity: MAX_QUADS_PER_FRAME_INITIAL,
            polychrome_sprites_capacity: MAX_QUADS_PER_FRAME_INITIAL,
            path_vertices_capacity: MAX_PATH_VERTICES_INITIAL,
            path_sprites_capacity: MAX_QUADS_PER_FRAME_INITIAL,
            path_intermediate_size: None,
            surface_textures_in_residency: Vec::new(),
            resident_atlas_texture: None,
            frame_number: 0,
        }
    }

    /// Whether the layer, where there is one, presents with a transaction.
    pub fn set_presents_with_transaction(&mut self, presents_with_transaction: bool) -> (r: Option<
        bool,
    >)
        ensures
            *final(self) == *old(self),
            r == old(self).told(presents_with_transaction),
            r == if old(self).has_layer {
                Some(presents_with_transaction)
            } else {
                None
            },
    {
        if self.has_layer {
            Some(presents_with_transaction)
        } else {
            None
        }
    }

    /// The size that the layer's drawables get, where there is a layer.
    pub fn update_drawable_size(&mut self, size: Size<i32>) -> (r: Option<Size<i32>>)
        ensures
            *final(self) == *old(self),
            r == old(self).told(size),
            r == if old(self).has_layer {
                Some(size)
            } else {
                None
            },
    {
        if self.has_layer {
            Some(size)
        } else {
            None
        }
    }

    /// Sets how the next frames are cleared. What the layer, where there is one, is told of its
    /// opacity is returned.
    pub fn update_transparency(&mut self, transparent: bool) -> (r: Option<bool>)
        ensures
            *final(self) == (Metal4Renderer { opaque: !transparent, ..*old(self) }),
            r == old(self).told(final(self).opaque),
            r == if old(self).has_layer {
                Some(!transparent)
            } else {
                None
            },
    {
        self.opaque = !transparent;
        if self.has_layer {
            Some(!transparent)
        } else {
            None
        }
    }
}

// ---- laws --------------------------------------------------------------------------------------

/// A device that is built in comes before one that can be removed, whatever their power; among devices
/// alike in that, one of low power comes before one of high power. Devices alike in both are equally
/// good.
pub proof fn law_built_in_devices_come_first(a: DeviceTraits, b: DeviceTraits)
    ensures
        a.spec_rank() < b.spec_rank() <==> (!a.removable && b.removable) || (a.removable
            == b.removable && a.low_power && !b.low_power),
        a.spec_rank() == b.spec_rank() <==> a == b,
{
}

/// Every pipeline lays its colours over what is there, which it covers by its alpha. Only those of paths
/// take their colours as premultiplied; the others multiply them by their alpha first. Alpha adds up,
/// but where the triangles of paths overlap it covers what is below.
pub proof fn law_pipelines_blend_by_alpha(pipeline: Pipeline)
    ensures
        blend_of(pipeline).destination_rgb is OneMinusSourceAlpha,
        blend_of(pipeline).source_alpha is One,
        pipeline is PathSprite || pipeline is PathRasterization <==> blend_of(pipeline).source_rgb
            is One,
        !(pipeline is PathSprite) && !(pipeline is PathRasterization) <==> blend_of(
            pipeline,
        ).source_rgb is SourceAlpha,
        pipeline is PathRasterization <==> blend_of(pipeline).destination_alpha
            is OneMinusSourceAlpha,
        !(pipeline is PathRasterization) <==> blend_of(pipeline).destination_alpha is One,
{
}

/// Paths alone are rasterized with several samples per pixel, four of them, as many as their texture has.
pub proof fn law_only_paths_are_multisampled(
    pipeline: Pipeline,
    current: Option<(i32, i32)>,
    viewport: Size<i32>,
)
    ensures
        pipeline is PathRasterization <==> samples_of(pipeline) is Some,
        samples_of(pipeline) matches Some(count) ==> count == 4,
        forall|i: int|
            0 <= i < path_textures_plan(current, viewport).len() ==> (
            #[trigger] path_textures_plan(current, viewport)[i] matches Command::CreatePathTextures {
                width,
                height,
                sample_count,
            } ==> width == viewport.width && height == viewport.height && Some(sample_count)
                == samples_of(Pipeline::PathRasterization)),
{
}

/// The name that the functions of a pipeline share.
pub open spec fn stem_of(pipeline: Pipeline) -> Seq<char> {
    match pipeline {
        Pipeline::Quad => "quad"@,
        Pipeline::Underline => "underline"@,
        Pipeline::Shadow => "shadow"@,
        Pipeline::MonochromeSprite => "monochrome_sprite"@,
        Pipeline::PolychromeSprite => "polychrome_sprite"@,
        Pipeline::PathRasterization => "path_rasterization"@,
        Pipeline::PathSprite => "path_sprite"@,
        Pipeline::Surface => "surface"@,
    }
}

/// The two functions of a pipeline have its name, followed by the stage that they are for. So no two
/// pipelines share a function.
pub proof fn law_functions_are_named_after_their_pipelines(pipeline: Pipeline)
    ensures
        function_names(pipeline).0 == stem_of(pipeline) + "_vertex"@,
        function_names(pipeline).1 == stem_of(pipeline) + "_fragment"@,
{
    reveal_strlit("_vertex");
    reveal_strlit("_fragment");
    reveal_strlit("quad");
    reveal_strlit("quad_vertex");
    reveal_strlit("quad_fragment");
    reveal_strlit("underline");
    reveal_strlit("underline_vertex");
    reveal_strlit("underline_fragment");
    reveal_strlit("shadow");
    reveal_strlit("shadow_vertex");
    reveal_strlit("shadow_fragment");
    reveal_strlit("monochrome_sprite");
    reveal_strlit("monochrome_sprite_vertex");
    reveal_strlit("monochrome_sprite_fragment");
    reveal_strlit("polychrome_sprite");
    reveal_strlit("polychrome_sprite_vertex");
    reveal_strlit("polychrome_sprite_fragment");
    reveal_strlit("path_rasterization");
    reveal_strlit("path_rasterization_vertex");
    reveal_strlit("path_rasterization_fragment");
    reveal_strlit("path_sprite");
    reveal_strlit("path_sprite_vertex");
    reveal_strlit("path_sprite_fragment");
    reveal_strlit("surface");
    reveal_strlit("surface_vertex");
    reveal_strlit("surface_fragment");
    assert(function_names(pipeline).0 =~= stem_of(pipeline) + "_vertex"@);
    assert(function_names(pipeline).1 =~= stem_of(pipeline) + "_fragment"@);
}

/// Every pipeline is compiled when a renderer is set up, with the blending and the samples that are its
/// own, and every compilation is of a pipeline as it is to be blended.
pub proof fn law_every_pipeline_is_compiled(layer: Option<bool>, pipeline: Pipeline)
    ensures
        exists|i: int| 0 <= i < setup_plan(layer).len() && compiles(
            #[trigger] setup_plan(layer)[i],
            pipeline,
        ),
        forall|i: int|
            0 <= i < pipelines_plan().len() ==> (
            #[trigger] pipelines_plan()[i] matches Command::CompilePipeline { pipeline: one, .. }
                ==> compiles(pipelines_plan()[i], one)),
        forall|i: int, j: int|
            0 <= i < j < pipelines_plan().len() ==> #[trigger] pipelines_plan()[i]
                != #[trigger] pipelines_plan()[j],
{
    let place = match pipeline {
        Pipeline::Quad => 2int,
        Pipeline::Underline => 3,
        Pipeline::Shadow => 4,
        Pipeline::MonochromeSprite => 5,
        Pipeline::PolychromeSprite => 6,
        Pipeline::PathRasterization => 7,
        Pipeline::PathSprite => 8,
        Pipeline::Surface => 9,
    };
    let before = device_plan() + layer_plan(layer) + buffers_plan();
    assert(setup_plan(layer)[before.len() + place] == pipelines_plan()[place]);
    assert(compiles(setup_plan(layer)[before.len() + place], pipeline));
}

/// A command compiles a pipeline, with its blending and its samples.
pub open spec fn compiles(command: Command, pipeline: Pipeline) -> bool {
    &&& command matches Command::CompilePipeline { pipeline: one, blend, sample_count }
    &&& one == pipeline
    &&& blend == blend_of(pipeline)
    &&& sample_count == samples_of(pipeline)
}

/// What happens to the drawables of a layer: they are made resident where the layer has a residency set,
/// it is reported where it has none, and without a layer there is nothing to do.
pub proof fn law_the_layer_is_made_resident(layer: Option<bool>)
    ensures
        layer == Some(true) <==> layer_plan(layer) == seq![Command::AddLayerResidencySetToQueue],
        layer == Some(false) <==> layer_plan(layer) == seq![
            Command::Report(Report::NoLayerResidency),
        ],
        layer is None <==> layer_plan(layer).len() == 0,
{
    let added = seq![Command::AddLayerResidencySetToQueue];
    let reported = seq![Command::Report(Report::NoLayerResidency)];
    assert(added[0] != reported[0]);
    if let Some(has_set) = layer {
        assert(has_set || layer == Some(false));
        assert(layer_plan(layer).len() == 1);
    } else {
        assert(added.len() == 1 && reported.len() == 1);
    }
}

/// A layer is told what it is set to, and nothing is told where there is none.
pub proof fn law_only_layers_are_told<T>(renderer: Metal4Renderer, value: T)
    ensures
        renderer.has_layer ==> renderer.told(value) == Some(value),
        !renderer.has_layer ==> renderer.told(value) is None,
{
}

/// A new renderer has drawn nothing and remembers nothing. Its buffers have room for 256 primitives of
/// each kind, and for three vertices of paths for each of those.
pub proof fn law_a_new_renderer_remembers_nothing(
    renderer: Metal4Renderer,
    has_layer: bool,
    opaque: bool,
)
    requires
        is_new(renderer, has_layer, opaque),
    ensures
        renderer.has_layer == has_layer,
        renderer.opaque == opaque,
        renderer.frame_number == 0,
        renderer.resident_atlas_texture is None,
        renderer.path_intermediate_size is None,
        renderer.surface_textures_in_residency@.len() == 0,
        renderer.quads_capacity == 256,
        renderer.underlines_capacity == 256,
        renderer.shadows_capacity == 256,
        renderer.monochrome_sprites_capacity == 256,
        renderer.polychrome_sprites_capacity == 256,
        renderer.path_sprites_capacity == 256,
        renderer.path_vertices_capacity == 3 * 256,
{
}

/// Whether a command is among those of a setup, before the last few of them.
pub open spec fn is_set_up(layer: Option<bool>, command: Command, last: int) -> bool {
    exists|i: int|
        0 <= i < setup_plan(layer).len() - last && #[trigger] setup_plan(layer)[i] == command
}

/// Everything that frames use is made: the queue, whose frames see what is resident, the command buffer and
/// its memory, the event that frames wait for, a table with a slot for every binding, and the cache for
/// the textures of surfaces. The shaders and the compiler are there before a pipeline is compiled.
pub proof fn law_setup_makes_what_frames_use(layer: Option<bool>)
    ensures
        is_set_up(layer, Command::CreateQueue, 0),
        is_set_up(layer, Command::CreateCommandBuffer, 0),
        is_set_up(layer, Command::CreateAllocator, 0),
        is_set_up(layer, Command::CreateArgumentTable { buffers: 4, textures: 6 }, 0),
        is_set_up(layer, Command::CreateResidencySet, 0),
        is_set_up(layer, Command::CreateFrameEvent, 0),
        is_set_up(layer, Command::AddResidencySetToQueue, 0),
        is_set_up(layer, Command::CreateTextureCache, 0),
        is_set_up(layer, Command::LoadShaders, 8),
        is_set_up(layer, Command::CreateCompiler, 8),
        forall|i: int|
            setup_plan(layer).len() - 8 <= i < setup_plan(layer).len() ==> (
            #[trigger] setup_plan(layer)[i]) is CompilePipeline,
{
    let before = device_plan() + layer_plan(layer) + buffers_plan();
    let plan = setup_plan(layer);
    assert(pipelines_plan().len() == 10);
    assert(plan.len() == before.len() + 10);
    assert(plan[0] == Command::CreateQueue);
    assert(plan[1] == Command::CreateCommandBuffer);
    assert(plan[2] == Command::CreateAllocator);
    assert(plan[3] == Command::CreateArgumentTable { buffers: 4, textures: 6 });
    assert(plan[4] == Command::CreateResidencySet);
    assert(plan[5] == Command::CreateFrameEvent);
    assert(plan[13] == Command::AddResidencySetToQueue);
    let start = device_plan().len() + layer_plan(layer).len();
    assert(buffers_plan()[21] == Command::CreateTextureCache);
    assert(plan[start + 21int] == buffers_plan()[21]);
    assert(plan[before.len() as int] == pipelines_plan()[0]);
    assert(plan[before.len() + 1int] == pipelines_plan()[1]);
    assert forall|i: int| plan.len() - 8 <= i < plan.len() implies (
    #[trigger] setup_plan(layer)[i]) is CompilePipeline by {
        assert(plan[i] == pipelines_plan()[i - before.len()]);
    }
}

} // verus!
