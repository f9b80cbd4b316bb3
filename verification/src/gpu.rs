//! The vocabulary of GPU work: textures, drawing passes, and the operations that
//! a plan is made of.

use vstd::prelude::*;

use crate::float_bits::F32Bits;

verus! {

/// A size in pixels.
#[derive(Clone, Copy, Debug, PartialEq, Eq, Structural)]
pub struct Extent {
    pub w: i32,
    pub h: i32,
}

/// A rectangle in pixels, by its origin and size.
#[derive(Clone, Copy, Debug, PartialEq, Eq, Structural)]
pub struct Rect {
    pub x: i32,
    pub y: i32,
    pub w: i32,
    pub h: i32,
}

/// A rectangle in pixels, by its opposite corners.
#[derive(Clone, Copy, Debug, PartialEq, Eq, Structural)]
pub struct Edges {
    pub x1: i32,
    pub y1: i32,
    pub x2: i32,
    pub y2: i32,
}

/// Two floating-point components.
#[derive(Clone, Copy, Debug, PartialEq, Eq, Structural)]
pub struct Pair {
    pub x: F32Bits,
    pub y: F32Bits,
}

/// Four floating-point components.
#[derive(Clone, Copy, Debug, PartialEq, Eq, Structural)]
pub struct Quad {
    pub x: F32Bits,
    pub y: F32Bits,
    pub z: F32Bits,
    pub w: F32Bits,
}

/// A texture on the GPU.
#[derive(Clone, Copy, Debug, PartialEq, Eq, Structural)]
pub struct Texture {
    pub id: u32,
    pub size: Extent,
}

/// How a texture is filtered.
#[derive(Clone, Copy, Debug, PartialEq, Eq, Structural)]
pub enum Filter {
    Nearest,
    Linear,
}

/// Sampler parameters to set on a texture.
#[derive(Clone, Copy, Debug, PartialEq, Eq, Structural)]
pub enum Sampling {
    /// Leave the parameters as they are.
    Keep,
    /// Set both filters.
    Filtered(Filter),
    /// Set both filters and clamp both axes to the edge.
    Clamped(Filter),
}

/// A texture bound to a texture unit for a draw.
#[derive(Clone, Copy, Debug, PartialEq, Eq, Structural)]
pub struct Binding {
    pub texture: u32,
    pub sampling: Sampling,
}

/// The channels that a draw writes.
#[derive(Clone, Copy, Debug, PartialEq, Eq, Structural)]
pub enum Channels {
    All,
    RedOnly,
}

/// The program of a draw, with the values of its uniforms.
///
/// A size that stands for a texel is the size whose reciprocal the shader gets,
/// and one that stands for a half pixel the size whose halved reciprocal it gets.
#[derive(Clone, Copy, Debug, PartialEq, Eq)]
pub enum Pass {
    /// Kawase downsampling step.
    KawaseDown { offset: F32Bits, half_pixel: Extent },
    /// Kawase upsampling step.
    KawaseUp { offset: F32Bits, half_pixel: Extent },
    /// Analytical mask of the whole window.
    WindowMask { geo_size: Pair, corner_radius: Quad },
    /// One instanced quad per subregion rectangle, combined by maximum.
    BinaryMask { output: Extent, origin_x: i32, origin_y: i32, instances: i32 },
    /// User-supplied mask program of the given mask pass.
    CustomMask {
        index: usize,
        subregions: i32,
        output: Extent,
        geo_size: Pair,
        corner_radius: Quad,
    },
    /// Jump flooding seeds.
    JfaInit { output: Extent },
    /// Jump flooding propagation over `step` pixels.
    JfaStep { output: Extent, step: i32 },
    /// Right-hand side of the finest Poisson level, scaled by the inverse square
    /// of half of `double_distance`.
    PoissonRhs { double_distance: i32 },
    /// Box restriction of the mask from a level with the given texel.
    RestrictMask { texel: Extent },
    /// Weighted Jacobi sweep.
    Jacobi { texel: Extent, spacing_squared: u64, omega: F32Bits },
    /// Residual of a fine level, restricted to the next coarser one.
    ResidualRestrict { texel: Extent, spacing_squared: u64 },
    /// Coarse correction added to a fine solution.
    Prolongate,
    /// Distance and direction, normalized by half of `double_distance`.
    Encode { output: Extent, double_distance: i32 },
    /// Low-pass filter of the encoded direction.
    Smooth { output: Extent },
    /// User-supplied render program of the given render pass.
    CustomRender {
        index: usize,
        pass_count: usize,
        output: Extent,
        input: Extent,
        geo_size: Pair,
        corner_radius: Quad,
        window_screen_rect: Quad,
    },
    /// Output multiplied by the mask.
    OutputMask,
}

/// One draw call: what it runs, what it writes, and what it reads.
///
/// A unit without a binding keeps whatever is bound to it.
#[derive(Clone, Copy, Debug, PartialEq, Eq)]
pub struct Draw {
    pub pass: Pass,
    pub target: u32,
    pub viewport: Extent,
    pub unit0: Option<Binding>,
    pub unit1: Option<Binding>,
    pub unit2: Option<Binding>,
    pub channels: Channels,
}

/// One operation of a plan, in the order in which it is to run.
#[derive(Clone, Copy, Debug, PartialEq, Eq)]
pub enum GpuOp {
    Draw(Draw),
    /// Clear a texture to transparent black, the whole of it or one region.
    Clear { target: u32, region: Option<Rect> },
    /// Set sampler parameters.
    Sample { texture: u32, sampling: Sampling },
    /// Upload the rectangles in source pixels, one texel each.
    Upload { texture: u32, texels: i32 },
    /// Copy a region of one texture onto a region of another, filtered linearly.
    Blit { source: u32, target: u32, from: Edges, to: Edges },
}

/// The binding reads the texture.
pub open spec fn binding_reads(binding: Option<Binding>, texture: u32) -> bool {
    binding matches Some(b) && b.texture == texture
}

impl GpuOp {
    /// The operation reads the contents of the texture.
    pub open spec fn reads(self, texture: u32) -> bool {
        match self {
            GpuOp::Draw(d) => {
                ||| binding_reads(d.unit0, texture)
                ||| binding_reads(d.unit1, texture)
                ||| binding_reads(d.unit2, texture)
            },
            GpuOp::Blit { source, .. } => source == texture,
            _ => false,
        }
    }

    /// The operation writes to the texture.
    pub open spec fn writes(self, texture: u32) -> bool {
        match self {
            GpuOp::Draw(d) => d.target == texture,
            GpuOp::Clear { target, .. } => target == texture,
            GpuOp::Sample { .. } => false,
            GpuOp::Upload { texture: written, .. } => written == texture,
            GpuOp::Blit { target, .. } => target == texture,
        }
    }

    /// The operation does not read what it writes: feedback of a texture into
    /// itself is undefined on the GPU.
    pub open spec fn free_of_feedback(self) -> bool {
        forall|texture: u32| #[trigger] self.writes(texture) ==> !self.reads(texture)
    }
}

/// No operation of the plan reads what it writes.
pub open spec fn plan_free_of_feedback(ops: Seq<GpuOp>) -> bool {
    forall|i: int| 0 <= i < ops.len() ==> (#[trigger] ops[i]).free_of_feedback()
}

/// No operation of the plan writes to the texture.
pub open spec fn plan_leaves(ops: Seq<GpuOp>, texture: u32) -> bool {
    forall|i: int| 0 <= i < ops.len() ==> !(#[trigger] ops[i]).writes(texture)
}

/// Some operation of the plan writes to the texture.
pub open spec fn plan_writes(ops: Seq<GpuOp>, texture: u32) -> bool {
    exists|k: int| 0 <= k < ops.len() && (#[trigger] ops[k]).writes(texture)
}

/// Two plans without feedback make one without feedback.
pub proof fn lemma_free_of_feedback_concat(a: Seq<GpuOp>, b: Seq<GpuOp>)
    requires
        plan_free_of_feedback(a),
        plan_free_of_feedback(b),
    ensures
        plan_free_of_feedback(a + b),
{
    assert forall|i: int| 0 <= i < (a + b).len() implies (#[trigger] (a + b)[i]).free_of_feedback() by {
        if i < a.len() {
            assert((a + b)[i] == a[i]);
        } else {
            assert((a + b)[i] == b[i - a.len()]);
        }
    }
}

/// Two plans that leave a texture alone make one that does.
pub proof fn lemma_leaves_concat(a: Seq<GpuOp>, b: Seq<GpuOp>, texture: u32)
    requires
        plan_leaves(a, texture),
        plan_leaves(b, texture),
    ensures
        plan_leaves(a + b, texture),
{
    assert forall|i: int| 0 <= i < (a + b).len() implies !(#[trigger] (a + b)[i]).writes(texture) by {
        if i < a.len() {
            assert((a + b)[i] == a[i]);
        } else {
            assert((a + b)[i] == b[i - a.len()]);
        }
    }
}

} // verus!
