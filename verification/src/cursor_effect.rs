//! The cursor drawn through the shader pipeline.

use std::collections::hash_map::DefaultHasher;
use std::hash::Hasher;

use vstd::bytes::{
    lemma_auto_spec_u32_to_from_le_bytes, lemma_auto_spec_u64_to_from_le_bytes,
    spec_u32_to_le_bytes, spec_u64_to_le_bytes,
};
use vstd::prelude::*;
use vstd::std_specs::hash::DefaultHasherAdditionalSpecFns;
use vstd::utf8::encode_utf8_decode_utf8;

use crate::blur_options::{make_zero_quad, zero_quad, BlurOptions, SubregionRects};
use crate::custom_blur::ShaderPipeline;
use crate::float_bits::{F32Bits, F64Bits, DOUBLE_ONE_BITS, ONE_BITS};
use crate::gpu::{Extent, Pair, Quad, Rect};
use crate::hashing::{feed_str, feed_u32, feed_u64, string_chunks};
use crate::icon::CursorIcon;

verus! {

// ---------------------------------------------------------------------------
// Geometry
// ---------------------------------------------------------------------------

/// A rectangle in logical coordinates.
#[derive(Clone, Copy, Debug, PartialEq, Eq, Structural)]
pub struct LogicalRect {
    pub x: F64Bits,
    pub y: F64Bits,
    pub w: F64Bits,
    pub h: F64Bits,
}

/// The padded effect region and the place of the silhouette within it.
#[derive(Clone, Copy, Debug, PartialEq, Eq, Structural)]
pub struct CursorEffectGeometry {
    /// Padded effect region in the logical coordinates of the output.
    pub geometry: LogicalRect,
    /// The silhouette within the mask, in mask pixels from the bottom left.
    pub coverage_bbox: Rect,
}

/// Place the silhouette within the effect region. `region` and `silhouette` are
/// both in physical pixels of the output, from the top left.
pub fn cursor_effect_geometry(geometry: LogicalRect, region: Rect, silhouette: Rect) -> (r:
    CursorEffectGeometry)
    requires
        i32::MIN <= silhouette.x - region.x <= i32::MAX,
        i32::MIN <= silhouette.y - region.y <= i32::MAX,
        i32::MIN <= region.h - (silhouette.y - region.y) <= i32::MAX,
        i32::MIN <= region.h - (silhouette.y - region.y) - silhouette.h <= i32::MAX,
    ensures
        r.geometry == geometry,
        r.coverage_bbox.x == silhouette.x - region.x,
        r.coverage_bbox.y == region.h - (silhouette.y - region.y) - silhouette.h,
        r.coverage_bbox.w == silhouette.w,
        r.coverage_bbox.h == silhouette.h,
{
    let x: i32 = silhouette.x - region.x;
    let y: i32 = silhouette.y - region.y;
    CursorEffectGeometry {
        geometry,
        coverage_bbox: Rect {
            x,
            y: region.h - y - silhouette.h,
            w: silhouette.w,
            h: silhouette.h,
        },
    }
}

/// A silhouette that lies within the region lies within the mask, as far from its
/// bottom as from the bottom of the region, and a silhouette with the same margin
/// above and below is where it was before the axis was turned over.
pub proof fn law_silhouette_keeps_its_margins(region: Rect, silhouette: Rect, bbox: Rect)
    requires
        bbox.x == silhouette.x - region.x,
        bbox.y == region.h - (silhouette.y - region.y) - silhouette.h,
        bbox.w == silhouette.w,
        bbox.h == silhouette.h,
        region.x <= silhouette.x,
        silhouette.x + silhouette.w <= region.x + region.w,
        region.y <= silhouette.y,
        silhouette.y + silhouette.h <= region.y + region.h,
    ensures
        0 <= bbox.x && bbox.x + bbox.w <= region.w,
        0 <= bbox.y && bbox.y + bbox.h <= region.h,
        bbox.y == (region.y + region.h) - (silhouette.y + silhouette.h),
        silhouette.y - region.y == (region.y + region.h) - (silhouette.y + silhouette.h)
            ==> bbox.y == silhouette.y - region.y,
{
}

// ---------------------------------------------------------------------------
// Identity of a frame
// ---------------------------------------------------------------------------

/// What a cursor frame feeds to the hasher.
pub open spec fn frame_chunks(
    name: Seq<char>,
    scale: i32,
    idx: usize,
    width: u32,
    height: u32,
) -> Seq<Seq<u8>> {
    string_chunks(name) + seq![
        spec_u32_to_le_bytes(scale as u32),
        spec_u64_to_le_bytes(idx as u64),
        spec_u32_to_le_bytes(width),
        spec_u32_to_le_bytes(height),
    ]
}

/// Identity of a cursor frame, by which its mask is cached. It leaves out the
/// position, so that moving the cursor reuses the mask.
pub fn cursor_frame_identity(
    icon: &CursorIcon,
    scale: i32,
    idx: usize,
    width: u32,
    height: u32,
) -> (identity: u64)
    ensures
        identity == DefaultHasher::spec_finish(
            frame_chunks(icon.name@, scale, idx, width, height),
        ),
{
    let mut hasher: DefaultHasher = DefaultHasher::new();
    feed_str(&mut hasher, icon.name.as_str());
    feed_u32(&mut hasher, scale as u32);
    feed_u64(&mut hasher, idx as u64);
    feed_u32(&mut hasher, width);
    feed_u32(&mut hasher, height);
    assert(hasher@ =~= frame_chunks(icon.name@, scale, idx, width, height));
    hasher.finish()
}

/// What the hasher is fed tells any two frames apart: by their icon, scale, place
/// in the animation, width or height.
pub proof fn law_frames_are_told_apart(
    a: (Seq<char>, i32, usize, u32, u32),
    b: (Seq<char>, i32, usize, u32, u32),
)
    requires
        frame_chunks(a.0, a.1, a.2, a.3, a.4) == frame_chunks(b.0, b.1, b.2, b.3, b.4),
    ensures
        a == b,
{
    let x = frame_chunks(a.0, a.1, a.2, a.3, a.4);
    let y = frame_chunks(b.0, b.1, b.2, b.3, b.4);
    assert(x[0] == y[0] && x[2] == y[2] && x[3] == y[3] && x[4] == y[4] && x[5] == y[5]);
    encode_utf8_decode_utf8(a.0);
    encode_utf8_decode_utf8(b.0);
    lemma_auto_spec_u32_to_from_le_bytes();
    lemma_auto_spec_u64_to_from_le_bytes();
    assert(spec_u32_to_le_bytes(a.1 as u32).len() == spec_u32_to_le_bytes(b.1 as u32).len());
    assert(spec_u64_to_le_bytes(a.2 as u64).len() == spec_u64_to_le_bytes(b.2 as u64).len());
    assert(spec_u32_to_le_bytes(a.3).len() == spec_u32_to_le_bytes(b.3).len());
    assert(spec_u32_to_le_bytes(a.4).len() == spec_u32_to_le_bytes(b.4).len());
    let s: i32 = a.1;
    let t: i32 = b.1;
    assert(s == t) by (bit_vector)
        requires
            s as u32 == t as u32,
    ;
}

// ---------------------------------------------------------------------------
// The effect
// ---------------------------------------------------------------------------

/// The alpha coverage of a cursor frame.
#[derive(Clone, Copy, Debug, PartialEq, Eq, Structural)]
pub struct CoverageMask {
    /// Identity of the frame.
    pub identity: u64,
    pub texture: u32,
    /// The silhouette within the mask, in mask pixels from the bottom left.
    pub bbox: Rect,
}

/// How the effect is placed.
#[derive(Clone, Copy, Debug, PartialEq, Eq, Structural)]
pub struct RenderParams {
    pub geometry: LogicalRect,
    pub subregion: Option<LogicalRect>,
    pub clip: Option<LogicalRect>,
    pub scale: F64Bits,
}

/// Blur options together with the mask that the effect brings along.
#[derive(Debug)]
pub struct EffectOptions {
    pub blur: BlurOptions,
    pub mask_size: Option<Extent>,
    pub mask_uv_rect: Quad,
    pub coverage_mask: Option<CoverageMask>,
}

/// All that the framebuffer effect of a cursor is drawn with.
#[derive(Debug)]
pub struct EffectFrame {
    /// The output has to be damaged first.
    pub damage: bool,
    pub ns: Option<usize>,
    pub params: RenderParams,
    pub options: EffectOptions,
    pub noise: F64Bits,
    pub saturation: F64Bits,
}

/// The rectangle that covers a whole texture.
pub open spec fn whole_uv() -> Quad {
    Quad {
        x: F32Bits { bits: 0 },
        y: F32Bits { bits: 0 },
        z: F32Bits { bits: ONE_BITS },
        w: F32Bits { bits: ONE_BITS },
    }
}

/// State for rendering the cursor through the shader pipeline.
///
/// The mask of the silhouette is tight and stays the same for a cursor frame; the
/// effect region is padded, so that refraction can sample what lies beyond.
#[derive(Clone, Copy, Debug, PartialEq, Eq, Structural)]
pub struct CursorEffect {
    /// Identity of the cursor frame that the cached mask holds. The element does
    /// not change when the image does, so that the output is damaged by this.
    pub last_identity: Option<u64>,
}

impl CursorEffect {
    /// No cursor frame has been drawn yet.
    pub fn new() -> (effect: Self)
        ensures
            effect.last_identity is None,
    {
        CursorEffect { last_identity: None }
    }

    /// Prepare the framebuffer effect for a cursor silhouette.
    ///
    /// `geo_size` is the size of the region in single precision. The list of
    /// subregions is a new empty one, under the given identity.
    pub fn render(
        &mut self,
        ns: Option<usize>,
        geometry: CursorEffectGeometry,
        geo_size: Pair,
        scale: F64Bits,
        coverage: CoverageMask,
        passes: u8,
        offset: F64Bits,
        pipeline: ShaderPipeline,
        rects_id: u64,
    ) -> (frame: EffectFrame)
        ensures
            final(self).last_identity == Some(coverage.identity),
            frame.damage == (old(self).last_identity != Some(coverage.identity)),
            frame.ns == ns,
            frame.params == (RenderParams {
                geometry: geometry.geometry,
                subregion: None,
                clip: None,
                scale,
            }),
            frame.options.blur.passes == passes,
            frame.options.blur.offset == offset,
            frame.options.blur.geo_size == geo_size,
            frame.options.blur.corner_radius == zero_quad(),
            frame.options.blur.subregion_rects.id == rects_id,
            frame.options.blur.subregion_rects.rects@.len() == 0,
            frame.options.blur.window_screen_rect == zero_quad(),
            frame.options.blur.shader_pipeline == Some(pipeline),
            frame.options.mask_size is None,
            frame.options.mask_uv_rect == whole_uv(),
            frame.options.coverage_mask == Some(coverage),
            frame.noise.bits == 0,
            frame.saturation.bits == DOUBLE_ONE_BITS,
    {
        let damage: bool = match self.last_identity {
            Some(identity) => identity != coverage.identity,
            None => true,
        };
        self.last_identity = Some(coverage.identity);
        let blur: BlurOptions = BlurOptions {
            passes,
            offset,
            geo_size,
            corner_radius: make_zero_quad(),
            subregion_rects: SubregionRects { id: rects_id, rects: Vec::new() },
            // Set later from the geometry on the screen, which keeps the light of
            // the shader in place there.
            window_screen_rect: make_zero_quad(),
            shader_pipeline: Some(pipeline),
        };
        EffectFrame {
            damage,
            ns,
            params: RenderParams {
                geometry: geometry.geometry,
                subregion: None,
                clip: None,
                scale,
            },
            options: EffectOptions {
                blur,
                mask_size: None,
                mask_uv_rect: Quad {
                    x: F32Bits { bits: 0 },
                    y: F32Bits { bits: 0 },
                    z: F32Bits { bits: ONE_BITS },
                    w: F32Bits { bits: ONE_BITS },
                },
                coverage_mask: Some(coverage),
            },
            noise: F64Bits { bits: 0 },
            saturation: F64Bits { bits: DOUBLE_ONE_BITS },
        }
    }
}

/// The mask of a cursor covers the whole of its texture: from zero to one on both axes.
pub proof fn law_mask_covers_its_texture()
    ensures
        whole_uv().x.bits == 0 && whole_uv().y.bits == 0,
        whole_uv().z.bits == 0x3f80_0000 && whole_uv().w.bits == 0x3f80_0000,
{
}

} // verus!
