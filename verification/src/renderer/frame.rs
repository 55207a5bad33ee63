//! Whole frames of the Metal 4 renderer.

use crate::geometry::Size;
use crate::renderer::gpu::{Command, Report, Target, Texture};
use crate::renderer::metal4_renderer::{
    drawable_size, grown, rasterizes, Metal4Renderer, Scene,
};
use crate::renderer::readback::{
    holds_image, image_bytes, image_dimensions, read_texture_to_image, swapped, RgbaImage,
};
use vstd::prelude::*;

verus! {

/// An image of a size without an area was asked for.
#[derive(Clone, Copy, Debug, PartialEq, Eq, Structural)]
pub struct InvalidSize {
    pub width: i32,
    pub height: i32,
}

proof fn lemma_end(before: Seq<Command>, result: Seq<Command>)
    requires
        result == before.push(Command::EndPass).push(Command::EndCommandBuffer),
    ensures
        result == before + seq![Command::EndPass, Command::EndCommandBuffer],
{
    assert(result =~= before + seq![Command::EndPass, Command::EndCommandBuffer]);
}

/// A list that was extended, or stayed where there was nothing to add.
proof fn lemma_begin(base: Seq<Command>, plan: Seq<Command>, result: Seq<Command>)
    requires
        result == base + plan || (result == base && plan.len() == 0),
    ensures
        result == base + plan,
{
    assert(result =~= base + plan);
}

/// A list that was extended once more.
proof fn lemma_join(
    base: Seq<Command>,
    plan: Seq<Command>,
    more: Seq<Command>,
    result: Seq<Command>,
)
    requires
        result == (base + plan) + more || (result == base + plan && more.len() == 0),
    ensures
        result == base + (plan + more),
{
    assert(result =~= base + (plan + more));
}

impl Metal4Renderer {
    /// The commands of a call of `draw`.
    pub open spec fn draw_plan(self, scene: Scene, drawable: Option<Size<i32>>) -> Seq<Command> {
        if !self.has_layer {
            seq![Command::Report(Report::HeadlessDraw)]
        } else if let Some(viewport) = drawable {
            self.frame_plan(scene, viewport, Target::Drawable, self.opaque) + seq![
                Command::WaitForDrawable,
                Command::CommitFrame,
                Command::SignalDrawable,
                Command::Present,
                Command::SignalFrame((self.frame_number + 1) as u64),
            ]
        } else {
            seq![Command::Report(Report::NoDrawable)]
        }
    }

    /// The commands of an offscreen frame.
    pub open spec fn image_plan(self, scene: Scene, size: Size<i32>) -> Seq<Command> {
        seq![
            Command::CreateOffscreen { width: size.width, height: size.height },
            Command::AddTexture(Texture::Offscreen),
            Command::CommitResidency,
        ] + self.frame_plan(scene, size, Target::Offscreen, true) + seq![
            Command::CommitFrame,
            Command::SignalFrame((self.frame_number + 1) as u64),
        ]
    }

    /// Begins a frame, and rasterizes its paths.
    fn open_frame(&mut self, scene: &Scene, viewport: Size<i32>, out: &mut Vec<Command>) -> (r: bool)
        requires
            old(self).wf(),
            scene.fits(),
            old(self).frame_number < u64::MAX,
        ensures
            final(self).wf(),
            r == rasterizes(scene.paths@, viewport),
            *final(self) == old(self).opened(*scene, viewport),
            final(out)@ == old(out)@ + old(self).opening_plan(*scene, viewport),
    {
        let ghost base = out@;
        if self.frame_number > 0 {
            out.push(Command::WaitForFrame(self.frame_number));
        }
        self.frame_number = self.frame_number + 1;
        out.push(Command::ResetAllocator);
        out.push(Command::BeginCommandBuffer);
        let ghost plan = old(self).begin_plan();
        assert(out@ =~= base + plan);
        // Metal cannot have two encoders on one command buffer, so the pass of the paths ends
        // before the main one begins.
        let rasterized = self.draw_paths_to_intermediate(&scene.paths, viewport, out);
        proof {
            lemma_join(base, plan, old(self).paths_to_plan(scene.paths@, viewport), out@);
        }
        rasterized
    }

    /// Encodes the main pass of a frame, up to the end of its command buffer.
    fn encode_pass(
        &mut self,
        scene: &Scene,
        viewport: Size<i32>,
        rasterized: bool,
        target: Target,
        opaque: bool,
        out: &mut Vec<Command>,
    )
        requires
            old(self).wf(),
            scene.fits(),
            rasterized == rasterizes(scene.paths@, viewport),
            rasterized ==> old(self).path_intermediate_size is Some,
        ensures
            final(self).wf(),
            old(self).drew_primitives(*scene, viewport, *final(self)),
            final(out)@ == old(out)@ + old(self).pass_plan(*scene, viewport, target, opaque),
    {
        let ghost base = out@;
        out.push(Command::BeginPass { target, opaque });
        out.push(Command::SetViewport { width: viewport.width, height: viewport.height });
        let ghost plan = seq![
            Command::BeginPass { target, opaque },
            Command::SetViewport { width: viewport.width, height: viewport.height },
        ];
        assert(out@ =~= base + plan);
        self.encode_primitives(scene, viewport, rasterized, out);
        let ghost more = old(self).primitives_plan(*scene, viewport);
        proof {
            lemma_join(base, plan, more, out@);
        }
        let ghost before = out@;
        let ghost plan = plan + more;
        out.push(Command::EndPass);
        out.push(Command::EndCommandBuffer);
        proof {
            lemma_end(before, out@);
            lemma_join(base, plan, seq![Command::EndPass, Command::EndCommandBuffer], out@);
        }
    }

    /// Encodes a frame up to the end of its command buffer.
    fn encode_frame(
        &mut self,
        scene: &Scene,
        viewport: Size<i32>,
        target: Target,
        opaque: bool,
        out: &mut Vec<Command>,
    )
        requires
            old(self).wf(),
            scene.fits(),
            old(self).frame_number < u64::MAX,
        ensures
            final(self).wf(),
            old(self).drew(*scene, viewport, *final(self)),
            final(out)@ == old(out)@ + old(self).frame_plan(*scene, viewport, target, opaque),
    {
        let ghost base = out@;
        let rasterized = self.open_frame(scene, viewport, out);
        self.encode_pass(scene, viewport, rasterized, target, opaque, out);
        proof {
            lemma_join(
                base,
                old(self).opening_plan(*scene, viewport),
                old(self).opened(*scene, viewport).pass_plan(*scene, viewport, target, opaque),
                out@,
            );
        }
    }

    /// Draws the primitives that sample no atlas texture.
    fn encode_shapes(
        &mut self,
        scene: &Scene,
        viewport: Size<i32>,
        rasterized: bool,
        out: &mut Vec<Command>,
    )
        requires
            scene.fits(),
            rasterized == rasterizes(scene.paths@, viewport),
            rasterized ==> old(self).path_intermediate_size is Some,
        ensures
            *final(self) == (Metal4Renderer {
                shadows_capacity: grown(old(self).shadows_capacity, scene.shadows as int),
                path_sprites_capacity: if rasterized {
                    grown(old(self).path_sprites_capacity, scene.paths@.len() as int)
                } else {
                    old(self).path_sprites_capacity
                },
                quads_capacity: grown(old(self).quads_capacity, scene.quads as int),
                underlines_capacity: grown(old(self).underlines_capacity, scene.underlines as int),
                ..*old(self)
            }),
            final(out)@ == old(out)@ + old(self).shapes_plan(*scene, viewport),
    {
        let ghost base = out@;
        if scene.shadows > 0 {
            self.draw_shadows(scene.shadows, viewport, out);
        }
        let ghost plan = old(self).shadows_plan(*scene, viewport);
        proof {
            lemma_begin(base, plan, out@);
        }
        if rasterized {
            self.draw_paths_from_intermediate(scene.paths.len(), viewport, out);
        }
        let ghost more = old(self).paths_from_plan(*scene, viewport);
        proof {
            lemma_join(base, plan, more, out@);
        }
        let ghost plan = plan + more;
        if scene.quads > 0 {
            self.draw_quads(scene.quads, viewport, out);
        }
        let ghost more = old(self).quads_plan(*scene, viewport);
        proof {
            lemma_join(base, plan, more, out@);
        }
        let ghost plan = plan + more;
        if scene.underlines > 0 {
            self.draw_underlines(scene.underlines, viewport, out);
        }
        proof {
            lemma_join(base, plan, old(self).underlines_plan(*scene, viewport), out@);
        }
    }

    /// Draws sprites and surfaces.
    fn encode_images(&mut self, scene: &Scene, viewport: Size<i32>, out: &mut Vec<Command>)
        requires
            old(self).wf(),
            scene.fits(),
        ensures
            final(self).wf(),
            old(self).drew_images(*scene, *final(self)),
            final(out)@ == old(out)@ + old(self).images_plan(*scene, viewport),
    {
        let ghost base = out@;
        if scene.monochrome_sprites.len() > 0 {
            self.draw_monochrome_sprites(&scene.monochrome_sprites, viewport, out);
        }
        let ghost plan = old(self).monochrome_plan(*scene, viewport);
        proof {
            lemma_begin(base, plan, out@);
        }
        if scene.polychrome_sprites.len() > 0 {
            self.draw_polychrome_sprites(&scene.polychrome_sprites, viewport, out);
        }
        let ghost more = old(self).polychrome_plan(*scene, viewport);
        proof {
            lemma_join(base, plan, more, out@);
        }
        let ghost plan = plan + more;
        self.draw_surfaces(&scene.surfaces, viewport, out);
        proof {
            lemma_join(base, plan, old(self).surfaces_plan(*scene, viewport), out@);
        }
    }

    /// Draws the primitives of a scene, kind after kind.
    fn encode_primitives(
        &mut self,
        scene: &Scene,
        viewport: Size<i32>,
        rasterized: bool,
        out: &mut Vec<Command>,
    )
        requires
            old(self).wf(),
            scene.fits(),
            rasterized == rasterizes(scene.paths@, viewport),
            rasterized ==> old(self).path_intermediate_size is Some,
        ensures
            final(self).wf(),
            final(out)@ == old(out)@ + old(self).primitives_plan(*scene, viewport),
            old(self).drew_primitives(*scene, viewport, *final(self)),
    {
        let ghost base = out@;
        let ghost plan = old(self).shapes_plan(*scene, viewport);
        self.encode_shapes(scene, viewport, rasterized, out);
        let ghost more = old(self).images_plan(*scene, viewport);
        assert(self.images_plan(*scene, viewport) == more);
        self.encode_images(scene, viewport, out);
        proof {
            lemma_join(base, plan, more, out@);
        }
    }

    /// Draws a scene to the layer's next drawable, whose size is given where there is one.
    ///
    /// The order of the kinds of primitives is fixed: shadows, paths, quads, underlines, sprites,
    /// surfaces. It does not follow the order of the scene.
    pub fn draw(&mut self, scene: &Scene, drawable: Option<Size<i32>>, out: &mut Vec<Command>)
        requires
            old(self).wf(),
            scene.fits(),
            old(self).frame_number < u64::MAX,
        ensures
            final(self).wf(),
            final(out)@ == old(out)@ + old(self).draw_plan(*scene, drawable),
            if old(self).has_layer && drawable is Some {
                old(self).drew(*scene, drawable->0, *final(self))
            } else {
                *final(self) == *old(self)
            },
    {
        if !self.has_layer {
            out.push(Command::Report(Report::HeadlessDraw));
            return ;
        }
        let viewport = match drawable {
            Some(viewport) => viewport,
            None => {
                out.push(Command::Report(Report::NoDrawable));
                return ;
            },
        };
        let opaque = self.opaque;
        self.encode_frame(scene, viewport, Target::Drawable, opaque, out);
        // The drawable is waited for before the commit and signalled after it, and presented last.
        out.push(Command::WaitForDrawable);
        out.push(Command::CommitFrame);
        out.push(Command::SignalDrawable);
        out.push(Command::Present);
        out.push(Command::SignalFrame(self.frame_number));
    }

    /// Draws a scene to an offscreen texture. The number of the frame is returned; once the GPU
    /// has announced it, the pixels of the texture can be read.
    pub fn render_scene_to_image(
        &mut self,
        scene: &Scene,
        size: Size<i32>,
        out: &mut Vec<Command>,
    ) -> (r: Result<u64, InvalidSize>)
        requires
            old(self).wf(),
            scene.fits(),
            old(self).frame_number < u64::MAX,
        ensures
            final(self).wf(),
            r == if drawable_size(size) {
                Ok((old(self).frame_number + 1) as u64)
            } else {
                Err(InvalidSize { width: size.width, height: size.height })
            },
            r is Ok ==> old(self).drew(*scene, size, *final(self)) && final(out)@ == old(out)@
                + old(self).image_plan(*scene, size),
            r is Err ==> *final(self) == *old(self) && final(out)@ == old(out)@,
    {
        if size.width <= 0 || size.height <= 0 {
            return Err(InvalidSize { width: size.width, height: size.height });
        }
        out.push(Command::CreateOffscreen { width: size.width, height: size.height });
        out.push(Command::AddTexture(Texture::Offscreen));
        out.push(Command::CommitResidency);
        self.encode_frame(scene, size, Target::Offscreen, true, out);
        out.push(Command::CommitFrame);
        out.push(Command::SignalFrame(self.frame_number));
        Ok(self.frame_number)
    }
}

/// Why there is no image of an offscreen frame that was drawn.
#[derive(Clone, Copy, Debug, PartialEq, Eq, Structural)]
pub enum ImageError {
    /// The GPU did not finish the frame in time.
    TimedOut,
    /// The pixels that were read do not make up an image.
    NotAnImage,
}

/// The image of an offscreen frame. `finished` says whether the GPU announced the end of the frame in
/// time, and `pixels` are those of the target.
pub fn image_of_frame(finished: bool, width: u32, height: u32, pixels: Vec<u8>) -> (r: Result<
    RgbaImage,
    ImageError,
>)
    ensures
        r is Ok == (finished && holds_image(width, height, pixels@.len())),
        r matches Ok(image) ==> image_bytes(image) == swapped(pixels@) && image_dimensions(image)
            == (width, height),
        r matches Err(error) ==> error == if finished {
            ImageError::NotAnImage
        } else {
            ImageError::TimedOut
        },
{
    if !finished {
        return Err(ImageError::TimedOut);
    }
    match read_texture_to_image(width, height, pixels) {
        Ok(image) => Ok(image),
        Err(_) => Err(ImageError::NotAnImage),
    }
}

} // verus!
