//! The commands that a renderer gives the GPU, and what they do to it.
//!
//! Nothing tracks resources for the renderer here: a buffer or a texture that a draw reads has to
//! be in the residency set, as it was last committed, and has to be bound in the argument table.
//! Only one render pass is encoded at a time. `Gpu` is the part of the machine's state that these
//! rules speak of, and `safe` says that a list of commands keeps to them.

use vstd::prelude::*;

verus! {

/// The buffers that the renderer owns.
#[derive(Clone, Copy, Debug, PartialEq, Eq, Structural)]
pub enum Buffer {
    /// The six corners of the two triangles that cover the unit square.
    UnitVertices,
    ViewportSize,
    AtlasSize,
    Quads,
    Underlines,
    Shadows,
    MonochromeSprites,
    PolychromeSprites,
    PathVertices,
    PathSprites,
    /// The bounds of the one surface that is being drawn.
    SurfaceBounds,
}

#[derive(Clone, Copy, Debug, PartialEq, Eq, Structural)]
pub enum AtlasTextureKind {
    Monochrome,
    Polychrome,
    Subpixel,
}

/// One of the textures of the sprite atlas.
#[derive(Clone, Copy, Debug, PartialEq, Eq, Structural)]
pub struct AtlasTextureId {
    pub index: u32,
    pub kind: AtlasTextureKind,
}

/// The two planes of a video frame.
#[derive(Clone, Copy, Debug, PartialEq, Eq, Structural)]
pub enum Plane {
    Luma,
    Chroma,
}

#[derive(Clone, Copy, Debug, PartialEq, Eq, Structural)]
pub enum Texture {
    Atlas(AtlasTextureId),
    /// The viewport-sized texture that paths are rasterized into.
    PathIntermediate,
    /// A plane of a surface, by the frame that it was made for and its place in that frame.
    Surface { frame: u64, surface: usize, plane: Plane },
    /// The target of an offscreen frame.
    Offscreen,
}

#[derive(Clone, Copy, Debug, PartialEq, Eq, Structural)]
pub enum Resource {
    Buffer(Buffer),
    Texture(Texture),
}

#[derive(Clone, Copy, Debug, PartialEq, Eq, Structural)]
pub enum Pipeline {
    Quad,
    Underline,
    Shadow,
    MonochromeSprite,
    PolychromeSprite,
    PathRasterization,
    PathSprite,
    Surface,
}

/// What a frame is drawn into.
#[derive(Clone, Copy, Debug, PartialEq, Eq, Structural)]
pub enum Target {
    Drawable,
    Offscreen,
}

/// Something that went wrong without stopping the renderer.
#[derive(Clone, Copy, Debug, PartialEq, Eq, Structural)]
pub enum Report {
    /// A renderer without a layer was asked to draw to it.
    HeadlessDraw,
    /// The layer has no drawable to give.
    NoDrawable,
    /// The layer has no residency set, so its drawables may not be resident.
    NoLayerResidency,
    /// Sprites of one draw are in several atlas textures; only this one is sampled.
    MixedAtlasTextures(AtlasTextureId),
    /// There is no path texture to composite from.
    NoPathTexture,
    /// The pixel format of a surface is not supported.
    UnsupportedSurface,
    /// A plane of a surface could not be made a texture.
    NoSurfaceTexture(Plane),
}

/// The colour blending of a pipeline.
#[derive(Clone, Copy, Debug, PartialEq, Eq, Structural)]
pub enum BlendFactor {
    One,
    SourceAlpha,
    OneMinusSourceAlpha,
}

#[derive(Clone, Copy, Debug, PartialEq, Eq, Structural)]
pub struct Blend {
    pub source_rgb: BlendFactor,
    pub source_alpha: BlendFactor,
    pub destination_rgb: BlendFactor,
    pub destination_alpha: BlendFactor,
}

#[derive(Clone, Copy, Debug, PartialEq, Eq, Structural)]
pub enum Command {
    // ---- setup ----
    CreateQueue,
    CreateCommandBuffer,
    CreateAllocator,
    CreateArgumentTable { buffers: usize, textures: usize },
    CreateResidencySet,
    /// An event whose signalled value is zero.
    CreateFrameEvent,
    /// Makes a buffer for a number of items.
    CreateBuffer { buffer: Buffer, capacity: usize },
    AddResidencySetToQueue,
    /// Makes the layer's drawables resident.
    AddLayerResidencySetToQueue,
    CreateTextureCache,
    LoadShaders,
    CreateCompiler,
    CompilePipeline { pipeline: Pipeline, blend: Blend, sample_count: Option<u32> },
    // ---- residency ----
    AddBuffer(Buffer),
    AddTexture(Texture),
    RemoveTexture(Texture),
    /// Makes the changes to the residency set take effect.
    CommitResidency,
    /// Replaces a buffer, and its place in the residency set, by one for more items.
    GrowBuffer { buffer: Buffer, capacity: usize },
    // ---- contents ----
    /// Copies the first items of a list into a buffer.
    WriteItems { buffer: Buffer, count: usize },
    WriteViewportSize { width: i32, height: i32 },
    /// Writes the dimensions of a texture to the atlas-size buffer.
    WriteTextureSize(Texture),
    /// Writes given dimensions to the atlas-size buffer.
    WriteAtlasSize { width: i32, height: i32 },
    CreatePathTextures { width: i32, height: i32, sample_count: u32 },
    DropPathTextures,
    CreateOffscreen { width: i32, height: i32 },
    // ---- encoding ----
    /// Waits until the GPU has finished the frame with this number.
    WaitForFrame(u64),
    ResetAllocator,
    BeginCommandBuffer,
    /// A render pass whose target is cleared to transparent or opaque black.
    BeginPass { target: Target, opaque: bool },
    /// A render pass into the path texture, cleared to transparent.
    BeginPathPass,
    SetViewport { width: i32, height: i32 },
    BindBuffer { buffer: Buffer, index: usize },
    BindTexture { texture: Texture, index: usize },
    UseArgumentTable,
    UsePipeline(Pipeline),
    Draw { vertices: usize, instances: usize },
    EndPass,
    EndCommandBuffer,
    // ---- submission ----
    WaitForDrawable,
    CommitFrame,
    SignalDrawable,
    Present,
    /// Has the GPU announce the end of the frame with this number.
    SignalFrame(u64),
    Report(Report),
}

/// The slots of the argument table.
pub const BUFFER_SLOTS: usize = 4;

pub const TEXTURE_SLOTS: usize = 6;

/// What the rules on resources need of the GPU's state.
pub struct Gpu {
    /// The residency set as it was last committed.
    pub resident: Set<Resource>,
    /// The residency set with the changes that were made since.
    pub staged: Set<Resource>,
    /// How many items fit in each buffer.
    pub capacity: Map<Buffer, nat>,
    /// The argument table.
    pub buffers: Map<int, Buffer>,
    pub textures: Map<int, Texture>,
    pub pipeline: Option<Pipeline>,
    /// A render pass is being encoded.
    pub encoding: bool,
}

impl Gpu {
    /// A machine on which nothing was set up.
    pub open spec fn blank() -> Gpu {
        Gpu {
            resident: Set::empty(),
            staged: Set::empty(),
            capacity: Map::empty(),
            buffers: Map::empty(),
            textures: Map::empty(),
            pipeline: None,
            encoding: false,
        }
    }

    /// The effect of one command.
    pub open spec fn step(self, command: Command) -> Gpu {
        match command {
            Command::CreateBuffer { buffer, capacity } => Gpu {
                capacity: self.capacity.insert(buffer, capacity as nat),
                ..self
            },
            Command::AddBuffer(buffer) => Gpu {
                staged: self.staged.insert(Resource::Buffer(buffer)),
                ..self
            },
            Command::AddTexture(texture) => Gpu {
                staged: self.staged.insert(Resource::Texture(texture)),
                ..self
            },
            Command::RemoveTexture(texture) => Gpu {
                staged: self.staged.remove(Resource::Texture(texture)),
                ..self
            },
            Command::CommitResidency => Gpu { resident: self.staged, ..self },
            Command::GrowBuffer { buffer, capacity } => Gpu {
                // The new buffer is in the set, and takes effect with the next commit.
                staged: self.staged.insert(Resource::Buffer(buffer)),
                resident: self.resident.remove(Resource::Buffer(buffer)),
                capacity: self.capacity.insert(buffer, capacity as nat),
                ..self
            },
            Command::CreatePathTextures { .. } => self.without(Texture::PathIntermediate),
            Command::DropPathTextures => self.without(Texture::PathIntermediate),
            Command::CreateOffscreen { .. } => self.without(Texture::Offscreen),
            Command::BindBuffer { buffer, index } => Gpu {
                buffers: self.buffers.insert(index as int, buffer),
                ..self
            },
            Command::BindTexture { texture, index } => Gpu {
                textures: self.textures.insert(index as int, texture),
                ..self
            },
            Command::UsePipeline(pipeline) => Gpu { pipeline: Some(pipeline), ..self },
            Command::BeginPass { .. } => Gpu { encoding: true, ..self },
            Command::BeginPathPass => Gpu { encoding: true, ..self },
            Command::EndPass => Gpu { encoding: false, ..self },
            _ => self,
        }
    }

    /// The texture that had this name is another one now, or none.
    pub open spec fn without(self, texture: Texture) -> Gpu {
        Gpu {
            staged: self.staged.remove(Resource::Texture(texture)),
            resident: self.resident.remove(Resource::Texture(texture)),
            ..self
        }
    }

    pub open spec fn buffer_ready(self, index: int) -> bool {
        &&& self.buffers.contains_key(index)
        &&& self.resident.contains(Resource::Buffer(self.buffers[index]))
    }

    pub open spec fn texture_ready(self, index: int) -> bool {
        &&& self.textures.contains_key(index)
        &&& self.resident.contains(Resource::Texture(self.textures[index]))
    }

    /// The command keeps to the rules: what is written fits in the buffer, everything that a draw
    /// reads is bound and resident, and passes do not overlap.
    pub open spec fn allows(self, command: Command) -> bool {
        match command {
            Command::WriteItems { buffer, count } => {
                &&& self.capacity.contains_key(buffer)
                &&& count <= self.capacity[buffer]
            },
            Command::BeginPass { .. } => !self.encoding,
            Command::BeginPathPass => !self.encoding,
            Command::SetViewport { .. } => self.encoding,
            Command::UseArgumentTable => self.encoding,
            Command::UsePipeline(_) => self.encoding,
            Command::EndPass => self.encoding,
            Command::EndCommandBuffer => !self.encoding,
            Command::CommitFrame => !self.encoding,
            Command::Draw { .. } => self.encoding && {
                match self.pipeline {
                    None => false,
                    Some(pipeline) => {
                        &&& forall|index: int| #[trigger]
                            reads_buffer(pipeline, index) ==> self.buffer_ready(index)
                        &&& forall|index: int| #[trigger]
                            reads_texture(pipeline, index) ==> self.texture_ready(index)
                    },
                }
            },
            _ => true,
        }
    }

    /// The effect of the first `count` commands of a list.
    pub open spec fn run_first(self, commands: Seq<Command>, count: nat) -> Gpu
        decreases count,
    {
        if count == 0 {
            self
        } else {
            self.run_first(commands, (count - 1) as nat).step(commands[count - 1])
        }
    }

    /// The effect of a list of commands.
    pub open spec fn run(self, commands: Seq<Command>) -> Gpu {
        self.run_first(commands, commands.len())
    }

    /// The first `count` commands of a list keep to the rules where they stand.
    pub open spec fn safe_first(self, commands: Seq<Command>, count: nat) -> bool
        decreases count,
    {
        count == 0 || {
            &&& self.safe_first(commands, (count - 1) as nat)
            &&& self.run_first(commands, (count - 1) as nat).allows(commands[count - 1])
        }
    }

    /// Every command of a list keeps to the rules where it stands.
    pub open spec fn safe(self, commands: Seq<Command>) -> bool {
        self.safe_first(commands, commands.len())
    }
}

/// The buffer slots that the shaders of a pipeline read.
pub open spec fn reads_buffer(pipeline: Pipeline, index: int) -> bool {
    match pipeline {
        Pipeline::PathRasterization => 0 <= index < 2,
        Pipeline::MonochromeSprite => 0 <= index < 4,
        Pipeline::PolychromeSprite => 0 <= index < 4,
        Pipeline::Surface => 0 <= index < 4,
        _ => 0 <= index < 3,
    }
}

/// The texture slots that the shaders of a pipeline read.
pub open spec fn reads_texture(pipeline: Pipeline, index: int) -> bool {
    match pipeline {
        Pipeline::MonochromeSprite => index == 4,
        Pipeline::PolychromeSprite => index == 4,
        Pipeline::PathSprite => index == 4,
        Pipeline::Surface => index == 4 || index == 5,
        _ => false,
    }
}

/// A binding stays within the slots that the argument table was made with.
pub open spec fn within_table(command: Command) -> bool {
    match command {
        Command::BindBuffer { index, .. } => index < BUFFER_SLOTS,
        Command::BindTexture { index, .. } => index < TEXTURE_SLOTS,
        _ => true,
    }
}

/// What comes after the first commands has no part in them.
proof fn lemma_first(gpu: Gpu, a: Seq<Command>, b: Seq<Command>, count: nat)
    requires
        count <= a.len(),
    ensures
        gpu.run_first(a + b, count) == gpu.run_first(a, count),
        gpu.safe_first(a + b, count) == gpu.safe_first(a, count),
    decreases count,
{
    if count > 0 {
        lemma_first(gpu, a, b, (count - 1) as nat);
    }
}

proof fn lemma_second(gpu: Gpu, a: Seq<Command>, b: Seq<Command>, count: nat)
    requires
        count <= b.len(),
    ensures
        gpu.run_first(a + b, a.len() + count) == gpu.run(a).run_first(b, count),
        gpu.safe_first(a + b, a.len() + count) == (gpu.safe(a) && gpu.run(a).safe_first(b, count)),
    decreases count,
{
    if count == 0 {
        lemma_first(gpu, a, b, a.len());
    } else {
        lemma_second(gpu, a, b, (count - 1) as nat);
        assert((a + b)[a.len() + count - 1] == b[count - 1]);
    }
}

/// Running two lists one after the other is running them joined.
pub proof fn lemma_run_add(gpu: Gpu, a: Seq<Command>, b: Seq<Command>)
    ensures
        gpu.run(a + b) == gpu.run(a).run(b),
        gpu.safe(a + b) == (gpu.safe(a) && gpu.run(a).safe(b)),
{
    lemma_second(gpu, a, b, b.len());
}

} // verus!
