//! The blur: its textures, its caches, and the plain Kawase blur.

use vstd::prelude::*;

use crate::blur_options::BlurOptions;
use crate::blur_program::BlurProgram;
use crate::custom_blur::MaskPassStep;
use crate::float_bits::F32Bits;
use crate::gpu::{Edges, Extent, GpuOp, Pair, Quad, Texture};
use crate::jfa::JfaTextures;
use crate::kawase::{
    chain_fits, chain_wf, clamped, down_ops, draw_chain, drop_unfit_chain, law_grown_chain_fits,
    law_reusable_chain_fits, missing_link, next_link, reusable_chain, trim_chain, up_ops,
};

verus! {

/// The programs of the built-in mask passes that have been compiled.
#[derive(Clone, Copy, Debug, PartialEq, Eq, Structural)]
pub struct Programs {
    /// The analytical mask of the window.
    pub window_mask: bool,
    /// The multiplication of the output by the mask.
    pub output_mask: bool,
    /// The binary mask of the subregions.
    pub binary: bool,
    /// The region mask, all of its programs.
    pub jfa: bool,
}

/// What a rendered mask depends on.
#[derive(Clone, Copy, Debug, PartialEq, Eq, Structural)]
pub struct MaskKey {
    /// Identity of the list of subregions.
    pub rects: u64,
    pub size: Extent,
    pub geo_size: Pair,
    pub corner_radius: Quad,
    /// Identity of the shader pipeline.
    pub pipeline: u64,
}

/// What the encoded field of the region mask depends on, and where it was placed.
///
/// The field is built in the coordinates of the bounding box, so that it stays
/// valid when the box moves.
#[derive(Debug)]
pub struct FieldCache {
    /// The rectangles, relative to the origin of the box.
    pub rects_local: Vec<Quad>,
    pub bbox_size: Option<Extent>,
    /// The encoded texture holds the field that the last frame asked for.
    pub built: bool,
    /// The origin of the box when the field was placed.
    pub bbox_x: i32,
    pub bbox_y: i32,
    /// The mask texture that received the field.
    pub owner: Option<u32>,
}

/// Blur state of one renderer.
#[derive(Debug)]
pub struct Blur {
    pub program: BlurProgram,
    /// The renderer that the programs and the textures belong to.
    pub context: u64,
    /// Output texture followed by intermediate textures, large to small.
    pub textures: Vec<Texture>,
    /// Outputs of the render passes of a shader pipeline.
    pub custom_textures: Vec<Texture>,
    /// Output of a shader pipeline multiplied by the region mask.
    pub masked_output: Option<Texture>,
    /// The two mask textures, which the mask passes draw to in turn.
    pub mask_a: Option<Texture>,
    pub mask_b: Option<Texture>,
    pub programs: Programs,
    /// What the rendered mask depends on, once there is one.
    pub mask_key: Option<MaskKey>,
    /// Which of the two textures holds the rendered mask: B or A.
    pub mask_in_b: Option<bool>,
    /// The subregions in source pixels.
    pub rects_px: Vec<Quad>,
    /// The same, cut down to whole pixels.
    pub rects_edges: Vec<Edges>,
    pub jfa_textures: Option<JfaTextures>,
    /// Texture that holds the subregions, one texel each. It grows when there are
    /// more than it has room for, and never shrinks.
    pub rects_texture: Option<u32>,
    pub rects_capacity: i32,
    pub field: FieldCache,
}

/// What a blur produced.
#[derive(Clone, Copy, Debug, PartialEq, Eq, Structural)]
pub struct BlurOutput {
    pub texture: Texture,
    /// The texture is transparent outside the requested subregions.
    pub subregion_clipped: bool,
}

/// Why a blur cannot be rendered.
#[allow(inconsistent_fields)]
#[derive(Clone, Copy, Debug, PartialEq, Eq, Structural)]
pub enum RenderError {
    /// The renderer is not the one that the blur belongs to.
    WrongRenderer,
    /// The shader pipeline has no render passes.
    NoRenderPasses,
    WrongTexturesLen { expected: usize, got: usize },
    WrongOutputSize { expected: Extent, got: Extent },
    /// The output texture is still in use elsewhere.
    OutputShared,
}

/// How a blur is drawn.
#[derive(Clone, Copy, Debug, PartialEq, Eq, Structural)]
pub enum RenderPath {
    Custom,
    Kawase,
}

/// The operations of a plain Kawase blur.
pub open spec fn plain_blur_ops(
    textures: Seq<Texture>,
    source: u32,
    passes: nat,
    offset: F32Bits,
) -> Seq<GpuOp> {
    down_ops(textures, source, passes, offset, None) + up_ops(
        textures,
        textures[0].id,
        offset,
        None,
    )
}

impl Blur {
    /// The textures of the chain have the sizes that their places call for, and so
    /// do those of the region mask; the subregions are known in both forms.
    pub open spec fn wf(&self) -> bool {
        &&& chain_wf(self.textures@)
        &&& self.jfa_textures matches Some(t) ==> t.wf()
        &&& self.rects_edges@.len() == self.rects_px@.len()
    }

    /// Nothing has been allocated, compiled or rendered yet.
    pub open spec fn fresh(&self) -> bool {
        &&& self.textures@.len() == 0
        &&& self.custom_textures@.len() == 0
        &&& self.masked_output is None
        &&& self.mask_a is None
        &&& self.mask_b is None
        &&& !self.programs.window_mask
        &&& !self.programs.output_mask
        &&& !self.programs.binary
        &&& !self.programs.jfa
        &&& self.mask_key is None
        &&& self.mask_in_b is None
        &&& self.rects_px@.len() == 0
        &&& self.rects_edges@.len() == 0
        &&& self.jfa_textures is None
        &&& self.rects_texture is None
        &&& self.rects_capacity == 0
        &&& self.field.rects_local@.len() == 0
        &&& self.field.bbox_size is None
        &&& !self.field.built
        &&& self.field.owner is None
    }

    /// A blur for a renderer, if the renderer has the Kawase programs.
    pub fn new(program: Option<BlurProgram>, context: u64) -> (blur: Option<Self>)
        ensures
            (match blur {
                Some(b) => program == Some(b.program) && b.context == context && b.fresh()
                    && b.wf(),
                None => program is None,
            }),
    {
        let program: BlurProgram = match program {
            Some(p) => p,
            None => {
                return None;
            },
        };
        Some(
            Blur {
                program,
                context,
                textures: Vec::new(),
                custom_textures: Vec::new(),
                masked_output: None,
                mask_a: None,
                mask_b: None,
                programs: Programs {
                    window_mask: false,
                    output_mask: false,
                    binary: false,
                    jfa: false,
                },
                mask_key: None,
                mask_in_b: None,
                rects_px: Vec::new(),
                rects_edges: Vec::new(),
                jfa_textures: None,
                rects_texture: None,
                rects_capacity: 0,
                field: FieldCache {
                    rects_local: Vec::new(),
                    bbox_size: None,
                    built: false,
                    bbox_x: 0,
                    bbox_y: 0,
                    owner: None,
                },
            },
        )
    }

    /// The renderer that the blur belongs to.
    pub fn context_id(&self) -> (context: u64)
        ensures
            context == self.context,
    {
        self.context
    }

    // -----------------------------------------------------------------------
    // The chain of textures
    // -----------------------------------------------------------------------

    /// Get ready to complete the chain for a source: drop what cannot serve it.
    pub fn begin_chain(&mut self, source: Texture, output_unique: bool)
        requires
            old(self).wf(),
        ensures
            *final(self) == (Blur { textures: final(self).textures, ..*old(self) }),
            final(self).textures@ == reusable_chain(
                old(self).textures@,
                source.size,
                output_unique,
            ),
            chain_fits(final(self).textures@, source.size),
            final(self).wf(),
    {
        proof {
            law_reusable_chain_fits(self.textures@, source.size, output_unique);
        }
        drop_unfit_chain(&mut self.textures, source.size, output_unique);
    }

    /// The size of the next texture that the chain lacks.
    pub fn next_chain_texture(&self, source: Texture, passes: usize) -> (size: Option<Extent>)
        requires
            source.size.w >= 0,
            source.size.h >= 0,
        ensures
            size == missing_link(self.textures@, source.size, passes as nat),
    {
        next_link(&self.textures, source.size, passes)
    }

    /// Add the texture that the chain lacked; without one that it lacks, nothing
    /// is added.
    pub fn add_chain_texture(&mut self, source: Texture, passes: usize, id: u32)
        requires
            source.size.w >= 0,
            source.size.h >= 0,
            old(self).wf(),
            chain_fits(old(self).textures@, source.size),
        ensures
            *final(self) == (Blur { textures: final(self).textures, ..*old(self) }),
            final(self).textures@ == (match missing_link(
                old(self).textures@,
                source.size,
                passes as nat,
            ) {
                Some(size) => old(self).textures@.push(Texture { id, size }),
                None => old(self).textures@,
            }),
            chain_fits(final(self).textures@, source.size),
            final(self).wf(),
    {
        if let Some(size) = self.next_chain_texture(source, passes) {
            proof {
                law_grown_chain_fits(self.textures@, source.size, passes as nat, id);
            }
            self.textures.push(Texture { id, size });
        }
    }

    /// Drop the textures that the passes do not need.
    pub fn finish_chain(&mut self, passes: usize)
        requires
            passes < usize::MAX,
            old(self).wf(),
            passes < old(self).textures@.len(),
        ensures
            *final(self) == (Blur { textures: final(self).textures, ..*old(self) }),
            final(self).textures@ == old(self).textures@.take(passes + 1),
            final(self).wf(),
    {
        trim_chain(&mut self.textures, passes);
    }

    /// Prepare the textures for a source. The result is the number of passes whose
    /// chain is to be completed; a shader pipeline has no use for the chain, which
    /// is dropped.
    pub fn prepare_textures(
        &mut self,
        source: Texture,
        options: &BlurOptions,
        output_unique: bool,
    ) -> (passes: Option<usize>)
        requires
            old(self).wf(),
        ensures
            *final(self) == (Blur { textures: final(self).textures, ..*old(self) }),
            (match passes {
                None => options.shader_pipeline is Some && final(self).textures@.len() == 0,
                Some(n) => {
                    &&& options.shader_pipeline is None
                    &&& n == clamped(options.passes)
                    &&& final(self).textures@ == reusable_chain(
                        old(self).textures@,
                        source.size,
                        output_unique,
                    )
                    &&& chain_fits(final(self).textures@, source.size)
                },
            }),
            final(self).wf(),
    {
        if options.shader_pipeline.is_some() {
            self.textures.clear();
            return None;
        }
        self.begin_chain(source, output_unique);
        Some(options.clamped_passes())
    }

    // -----------------------------------------------------------------------
    // The plain blur
    // -----------------------------------------------------------------------

    /// How to draw: with the shader pipeline if there is one and it compiled,
    /// otherwise with the Kawase blur.
    pub fn render_path(options: &BlurOptions, compiled: bool) -> (path: RenderPath)
        ensures
            path == (if options.shader_pipeline is Some && compiled {
                RenderPath::Custom
            } else {
                RenderPath::Kawase
            }),
    {
        if options.shader_pipeline.is_some() && compiled {
            RenderPath::Custom
        } else {
            RenderPath::Kawase
        }
    }

    /// Whether the chain has to be made anew before a plain blur.
    pub open spec fn chain_unfit(&self, source: Texture, passes: nat) -> bool {
        ||| self.textures@.len() != passes + 1
        ||| self.textures@[0].size != source.size
    }

    /// Whether the chain has to be completed before a plain blur. A pipeline that
    /// did not compile leaves none behind.
    pub fn needs_chain(&self, source: Texture, options: &BlurOptions) -> (r: bool)
        ensures
            r == self.chain_unfit(source, clamped(options.passes)),
    {
        let passes: usize = options.clamped_passes();
        if self.textures.len() != passes + 1 {
            return true;
        }
        let size: Extent = self.textures[0].size;
        size.w != source.size.w || size.h != source.size.h
    }

    /// Why a plain blur cannot be rendered, if it cannot.
    pub open spec fn plain_error(
        &self,
        context: u64,
        source: Texture,
        options: &BlurOptions,
        output_unique: bool,
    ) -> Option<RenderError> {
        let expected = clamped(options.passes) + 1;
        if context != self.context {
            Some(RenderError::WrongRenderer)
        } else if self.textures@.len() != expected {
            Some(
                RenderError::WrongTexturesLen {
                    expected: expected as usize,
                    got: self.textures@.len() as usize,
                },
            )
        } else if self.textures@[0].size != source.size {
            Some(
                RenderError::WrongOutputSize {
                    expected: source.size,
                    got: self.textures@[0].size,
                },
            )
        } else if !output_unique {
            Some(RenderError::OutputShared)
        } else {
            None
        }
    }

    /// Render the Kawase blur into the first texture of the chain. `offset` is the
    /// offset of the options in single precision.
    pub fn render(
        &self,
        context: u64,
        source: Texture,
        options: &BlurOptions,
        offset: F32Bits,
        output_unique: bool,
    ) -> (result: Result<(Vec<GpuOp>, BlurOutput), RenderError>)
        ensures
            (match result {
                Err(e) => self.plain_error(context, source, options, output_unique) == Some(e),
                Ok((ops, output)) => {
                    &&& self.plain_error(context, source, options, output_unique) is None
                    &&& ops@ == plain_blur_ops(
                        self.textures@,
                        source.id,
                        clamped(options.passes),
                        offset,
                    )
                    &&& output == BlurOutput {
                        texture: self.textures@[0],
                        subregion_clipped: false,
                    }
                },
            }),
    {
        if context != self.context {
            return Err(RenderError::WrongRenderer);
        }
        let passes: usize = options.clamped_passes();
        if self.textures.len() != passes + 1 {
            return Err(
                RenderError::WrongTexturesLen { expected: passes + 1, got: self.textures.len() },
            );
        }
        let output: Texture = self.textures[0];
        if output.size.w != source.size.w || output.size.h != source.size.h {
            return Err(
                RenderError::WrongOutputSize { expected: source.size, got: output.size },
            );
        }
        if !output_unique {
            return Err(RenderError::OutputShared);
        }
        let mut ops: Vec<GpuOp> = Vec::new();
        draw_chain(&mut ops, &self.textures, source.id, output.id, passes, offset, None);
        assert(self.textures@.take(passes + 1) =~= self.textures@);
        assert(ops@ =~= plain_blur_ops(self.textures@, source.id, passes as nat, offset));
        Ok((ops, BlurOutput { texture: output, subregion_clipped: false }))
    }

    /// Whether the output can be clipped by the mask: the subregions are given,
    /// and the last mask pass leaves exactly their mask.
    pub open spec fn clips_output(mask_passes: Seq<MaskPassStep>, has_subregions: bool) -> bool {
        has_subregions && (mask_passes.len() == 0 || mask_passes.last() is RegionVectors)
    }

    /// Whether the output of a shader pipeline can be clipped on the GPU.
    pub fn can_gpu_clip_custom_output(mask_passes: &[MaskPassStep], has_subregions: bool) -> (r:
        bool)
        ensures
            r == Self::clips_output(mask_passes@, has_subregions),
    {
        if !has_subregions {
            return false;
        }
        if mask_passes.len() == 0 {
            return true;
        }
        match &mask_passes[mask_passes.len() - 1] {
            MaskPassStep::RegionVectors => true,
            _ => false,
        }
    }
}

/// A chain completed for a source serves a plain blur of it: the only error left
/// is an output in use elsewhere.
pub proof fn law_completed_chain_serves(
    blur: Blur,
    source: Texture,
    options: BlurOptions,
    output_unique: bool,
)
    requires
        chain_fits(blur.textures@, source.size),
        blur.textures@.len() == clamped(options.passes) + 1,
    ensures
        !blur.chain_unfit(source, clamped(options.passes)),
        blur.plain_error(blur.context, source, &options, output_unique) == (if output_unique {
            None
        } else {
            Some(RenderError::OutputShared)
        }),
{
}

/// A plain blur is rendered exactly when the renderer is the one that the blur belongs
/// to, there is one texture more than passes, the first has the size of the source, and
/// it is in use nowhere else. Otherwise the first of these that does not hold is the
/// error.
pub proof fn law_what_a_plain_blur_needs(
    blur: &Blur,
    context: u64,
    source: Texture,
    options: &BlurOptions,
    output_unique: bool,
)
    ensures
        ({
            let rounds = if options.passes == 0 {
                1int
            } else if options.passes > 31 {
                31
            } else {
                options.passes as int
            };
            let got = blur.textures@.len();
            match blur.plain_error(context, source, options, output_unique) {
                None => {
                    &&& context == blur.context
                    &&& got == rounds + 1
                    &&& blur.textures@[0].size == source.size
                    &&& output_unique
                },
                Some(RenderError::WrongRenderer) => context != blur.context,
                Some(RenderError::WrongTexturesLen { expected, got: have }) => {
                    &&& context == blur.context
                    &&& got != rounds + 1
                    &&& expected == rounds + 1
                    &&& have == got
                },
                Some(RenderError::WrongOutputSize { expected, got: have }) => {
                    &&& context == blur.context
                    &&& got == rounds + 1
                    &&& have != expected
                    &&& expected == source.size
                    &&& have == blur.textures@[0].size
                },
                Some(RenderError::OutputShared) => {
                    &&& context == blur.context
                    &&& got == rounds + 1
                    &&& blur.textures@[0].size == source.size
                    &&& !output_unique
                },
                Some(RenderError::NoRenderPasses) => false,
            }
        }),
        blur.chain_unfit(source, clamped(options.passes)) <==> blur.textures@.len() != (
        if options.passes == 0 {
            1int
        } else if options.passes > 31 {
            31
        } else {
            options.passes as int
        }) + 1 || blur.textures@[0].size != source.size,
{
    assert(blur.textures@.len() == blur.textures.len());
}

} // verus!
