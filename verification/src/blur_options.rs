//! The options of a blur.

use vstd::prelude::*;

use crate::custom_blur::ShaderPipeline;
use crate::float_bits::{F32Bits, F64Bits};
use crate::gpu::{Pair, Quad};
use crate::kawase::{clamp_passes, clamped};

verus! {

/// A list of subregions that several options may share.
///
/// The identity says which list it is: two values with the same identity are the
/// same list, and lists with the same contents may still be different ones.
#[derive(Debug)]
pub struct SubregionRects {
    pub id: u64,
    /// Opposite corners, as fractions of the source.
    pub rects: Vec<Quad>,
}

/// The blur section of the configuration.
#[derive(Debug)]
pub struct BlurConfig {
    pub passes: u8,
    pub offset: F64Bits,
    pub shader_pipeline: Option<ShaderPipeline>,
}

/// The options of a blur.
#[derive(Debug)]
pub struct BlurOptions {
    pub passes: u8,
    pub offset: F64Bits,
    pub geo_size: Pair,
    pub corner_radius: Quad,
    pub subregion_rects: SubregionRects,
    pub window_screen_rect: Quad,
    /// The shader pipeline to draw with; without one, the Kawase blur.
    pub shader_pipeline: Option<ShaderPipeline>,
}

/// Two zeros.
pub open spec fn zero_pair() -> Pair {
    Pair { x: F32Bits { bits: 0 }, y: F32Bits { bits: 0 } }
}

/// Four zeros.
pub open spec fn zero_quad() -> Quad {
    Quad {
        x: F32Bits { bits: 0 },
        y: F32Bits { bits: 0 },
        z: F32Bits { bits: 0 },
        w: F32Bits { bits: 0 },
    }
}

fn make_zero_pair() -> (r: Pair)
    ensures
        r == zero_pair(),
{
    Pair { x: F32Bits { bits: 0 }, y: F32Bits { bits: 0 } }
}

pub(crate) fn make_zero_quad() -> (r: Quad)
    ensures
        r == zero_quad(),
{
    Quad {
        x: F32Bits { bits: 0 },
        y: F32Bits { bits: 0 },
        z: F32Bits { bits: 0 },
        w: F32Bits { bits: 0 },
    }
}

impl BlurOptions {
    /// The options of a configuration, without geometry. The list of subregions is
    /// a new empty one, under the given identity.
    pub fn from(config: BlurConfig, rects_id: u64) -> (options: Self)
        ensures
            options.passes == config.passes,
            options.offset == config.offset,
            options.shader_pipeline == config.shader_pipeline,
            options.geo_size == zero_pair(),
            options.corner_radius == zero_quad(),
            options.window_screen_rect == zero_quad(),
            options.subregion_rects.id == rects_id,
            options.subregion_rects.rects@.len() == 0,
    {
        BlurOptions {
            passes: config.passes,
            offset: config.offset,
            geo_size: make_zero_pair(),
            corner_radius: make_zero_quad(),
            subregion_rects: SubregionRects { id: rects_id, rects: Vec::new() },
            window_screen_rect: make_zero_quad(),
            shader_pipeline: config.shader_pipeline,
        }
    }

    /// The number of Kawase passes, within its limits.
    pub fn clamped_passes(&self) -> (passes: usize)
        ensures
            passes == clamped(self.passes),
    {
        clamp_passes(self.passes)
    }

    pub fn with_geometry(self, geo_size: Pair, corner_radius: Quad) -> (options: Self)
        ensures
            options == (BlurOptions { geo_size, corner_radius, ..self }),
    {
        let mut options: BlurOptions = self;
        options.geo_size = geo_size;
        options.corner_radius = corner_radius;
        options
    }

    pub fn with_subregion_rects(self, rects: SubregionRects) -> (options: Self)
        ensures
            options == (BlurOptions { subregion_rects: rects, ..self }),
    {
        let mut options: BlurOptions = self;
        options.subregion_rects = rects;
        options
    }

    pub fn with_window_screen_rect(self, rect: Quad) -> (options: Self)
        ensures
            options == (BlurOptions { window_screen_rect: rect, ..self }),
    {
        let mut options: BlurOptions = self;
        options.window_screen_rect = rect;
        options
    }
}

/// Options without geometry have none at all: no size, no corners, no place on the
/// screen.
pub proof fn law_no_geometry_is_zero()
    ensures
        zero_pair().x.bits == 0 && zero_pair().y.bits == 0,
        zero_quad().x.bits == 0 && zero_quad().y.bits == 0 && zero_quad().z.bits == 0
            && zero_quad().w.bits == 0,
{
}

} // verus!
