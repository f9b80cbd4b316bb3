//! Rendering through a shader pipeline, one step at a time.
//!
//! A frame is begun, its textures and programs are asked for and supplied, and
//! then it is drawn. The order of the steps is that of the functions below.

use vstd::arithmetic::power2::{lemma2_to64, lemma_pow2_pos, lemma_pow2_unfold, pow2};
use vstd::prelude::*;

use crate::blur::{Blur, BlurOutput, FieldCache, MaskKey, Programs, RenderError};
use crate::blur_options::BlurOptions;
use crate::blur_program::CustomBlurProgram;
use crate::custom_blur::{MaskPassStep, RenderPassStep};
use crate::float_bits::F32Bits;
use crate::gpu::{
    Binding, Channels, Draw, Edges, Extent, Filter, GpuOp, Pair, Pass, Quad, Rect, Sampling, Texture,
};
use crate::jfa::{
    bbox_within, binary_mask_ops, clear_mask_texture, is_depth, law_bbox_within_source, level_size,
    padded_box, pyramid_sizes, region_bbox, region_mask_ops, render_binary_mask, render_jfa_mask,
    JfaTextures, RegionMask, RegionSpan,
};
use crate::kawase::{
    clamp_passes, clamped, dual_kawase_ops, run_dual_kawase_blur, MAX_KAWASE_PASSES,
};
use crate::multigrid::MultigridLevel;

verus! {

/// The format of a texture.
#[derive(Clone, Copy, Debug, PartialEq, Eq, Structural)]
pub enum Format {
    Rgba8,
    Rgba16F,
    Rgba32F,
    R32F,
    Rg16F,
    R16F,
}

/// A texture that is to be allocated.
#[derive(Clone, Copy, Debug, PartialEq, Eq, Structural)]
pub struct TextureRequest {
    pub format: Format,
    pub size: Extent,
}

/// A frame that is being rendered through a shader pipeline.
#[derive(Debug)]
pub struct CustomFrame {
    pub source: Texture,
    /// The output size of each render pass.
    pub pass_sizes: Vec<Extent>,
    /// Whether the mask is exact enough to clip the output by it.
    pub clip: bool,
    /// The list of subregions is not that of the rendered mask.
    pub rects_changed: bool,
    /// The size is not that of the rendered mask.
    pub size_changed: bool,
    /// Something that the mask depends on is not that of the rendered mask.
    pub inputs_changed: bool,
    /// The box in which the region mask is built, if there is a region mask.
    pub bbox: Option<Rect>,
    /// The sizes of the levels of the region mask.
    pub levels: Vec<Extent>,
    /// A mask texture was allocated in this frame.
    pub masks_new: bool,
    /// The texture of the subregions was allocated in this frame.
    pub rects_texture_new: bool,
    /// The textures of the region mask were allocated in this frame.
    pub field_new: bool,
    /// Textures of the region mask that were allocated so far.
    pub pending: Vec<u32>,
    /// The encoded field of the region mask is still valid.
    pub field_hit: bool,
    /// Where the encoded field was placed before, if it is still valid.
    pub field_previous: Option<Rect>,
}

impl CustomFrame {
    /// The box of the region mask lies within the source and has its levels; some
    /// of its textures may have been allocated, but not all.
    pub open spec fn wf(&self) -> bool {
        &&& self.source.size.w >= 0
        &&& self.source.size.h >= 0
        &&& self.bbox matches Some(b) ==> {
            &&& bbox_within(b, self.source.size)
            &&& are_levels(b, self.levels@)
            &&& self.pending@.len() < field_texture_count(self.levels@.len())
        }
        &&& self.bbox is None ==> self.pending@.len() == 0
    }

    /// Nothing is known of the mask yet.
    pub open spec fn begun(&self) -> bool {
        &&& !self.rects_changed
        &&& !self.size_changed
        &&& !self.inputs_changed
        &&& self.bbox is None
        &&& !self.masks_new
        &&& !self.rects_texture_new
        &&& !self.field_new
        &&& self.pending@.len() == 0
        &&& !self.field_hit
        &&& self.field_previous is None
    }
}

// ---------------------------------------------------------------------------
// Outputs
// ---------------------------------------------------------------------------

/// The textures have the sizes.
pub open spec fn sizes_fit(textures: Seq<Texture>, sizes: Seq<Extent>) -> bool {
    &&& textures.len() == sizes.len()
    &&& forall|i: int| 0 <= i < textures.len() ==> (#[trigger] textures[i]).size == sizes[i]
}

fn check_sizes(textures: &Vec<Texture>, sizes: &Vec<Extent>) -> (r: bool)
    ensures
        r == sizes_fit(textures@, sizes@),
{
    if textures.len() != sizes.len() {
        return false;
    }
    let mut i: usize = 0;
    while i < textures.len()
        invariant
            i <= textures@.len() == sizes@.len(),
            forall|j: int| 0 <= j < i ==> (#[trigger] textures@[j]).size == sizes@[j],
        decreases textures@.len() - i,
    {
        if textures[i].size.w != sizes[i].w || textures[i].size.h != sizes[i].h {
            assert(textures@[i as int].size != sizes@[i as int]);
            return false;
        }
        i = i + 1;
    }
    true
}

/// There is no texture, or it has another size.
pub open spec fn unfit(texture: Option<Texture>, size: Extent) -> bool {
    match texture {
        Some(t) => t.size != size,
        None => true,
    }
}

fn is_unfit(texture: &Option<Texture>, size: Extent) -> (r: bool)
    ensures
        r == unfit(*texture, size),
{
    match texture {
        Some(t) => t.size.w != size.w || t.size.h != size.h,
        None => true,
    }
}

impl Blur {
    /// The outputs that are there have the sizes that the frame calls for.
    pub open spec fn outputs_fit(&self, f: &CustomFrame) -> bool {
        forall|i: int|
            0 <= i < self.custom_textures@.len() && i < f.pass_sizes@.len() ==> (
            #[trigger] self.custom_textures@[i]).size == f.pass_sizes@[i]
    }

    /// The next output texture that the frame lacks: that of each render pass, then
    /// that of the clipped output.
    pub open spec fn missing_output(&self, f: &CustomFrame) -> Option<TextureRequest> {
        let have = self.custom_textures@.len();
        if have < f.pass_sizes@.len() {
            Some(TextureRequest { format: Format::Rgba8, size: f.pass_sizes@[have as int] })
        } else if f.clip && unfit(self.masked_output, f.pass_sizes@.last()) {
            Some(TextureRequest { format: Format::Rgba8, size: f.pass_sizes@.last() })
        } else {
            None
        }
    }

    /// Begin a frame.
    ///
    /// Output textures of other sizes than this frame needs are dropped.
    pub fn begin_custom(
        &mut self,
        context: u64,
        source: Texture,
        program: &CustomBlurProgram,
        options: &BlurOptions,
        pass_sizes: Vec<Extent>,
    ) -> (result: Result<CustomFrame, RenderError>)
        requires
            source.size.w >= 0,
            source.size.h >= 0,
            pass_sizes@.len() == program.render_passes@.len(),
        ensures
            *final(self) == (Blur { custom_textures: final(self).custom_textures, ..*old(self) }),
            (match result {
                Err(e) => {
                    &&& final(self).custom_textures@ == old(self).custom_textures@
                    &&& e == (if context != old(self).context {
                        RenderError::WrongRenderer
                    } else {
                        RenderError::NoRenderPasses
                    })
                    &&& context != old(self).context || pass_sizes@.len() == 0
                },
                Ok(f) => {
                    &&& context == old(self).context
                    &&& pass_sizes@.len() > 0
                    &&& final(self).custom_textures@ == if sizes_fit(
                        old(self).custom_textures@,
                        pass_sizes@,
                    ) {
                        old(self).custom_textures@
                    } else {
                        seq![]
                    }
                    &&& f.source == source
                    &&& f.pass_sizes == pass_sizes
                    &&& f.clip == Blur::clips_output(
                        program.mask_passes@,
                        options.subregion_rects.rects@.len() > 0,
                    )
                    &&& f.begun()
                    &&& f.wf()
                    &&& final(self).outputs_fit(&f)
                },
            }),
    {
        if context != self.context {
            return Err(RenderError::WrongRenderer);
        }
        if pass_sizes.len() == 0 {
            return Err(RenderError::NoRenderPasses);
        }
        if !check_sizes(&self.custom_textures, &pass_sizes) {
            self.custom_textures.clear();
        }
        let clip: bool = Blur::can_gpu_clip_custom_output(
            program.mask_passes.as_slice(),
            options.subregion_rects.rects.len() > 0,
        );
        Ok(
            CustomFrame {
                source,
                pass_sizes,
                clip,
                rects_changed: false,
                size_changed: false,
                inputs_changed: false,
                bbox: None,
                levels: Vec::new(),
                masks_new: false,
                rects_texture_new: false,
                field_new: false,
                pending: Vec::new(),
                field_hit: false,
                field_previous: None,
            },
        )
    }

    /// The next output texture to allocate.
    pub fn next_output_texture(&self, f: &CustomFrame) -> (request: Option<TextureRequest>)
        requires
            f.pass_sizes@.len() > 0,
        ensures
            request == self.missing_output(f),
    {
        let have: usize = self.custom_textures.len();
        let count: usize = f.pass_sizes.len();
        if have < count {
            return Some(TextureRequest { format: Format::Rgba8, size: f.pass_sizes[have] });
        }
        let size: Extent = f.pass_sizes[count - 1];
        if f.clip && is_unfit(&self.masked_output, size) {
            return Some(TextureRequest { format: Format::Rgba8, size });
        }
        None
    }

    /// Add the output texture that was asked for.
    pub fn add_output_texture(&mut self, f: &CustomFrame, id: u32)
        requires
            f.pass_sizes@.len() > 0,
        ensures
            *final(self) == (Blur {
                custom_textures: final(self).custom_textures,
                masked_output: final(self).masked_output,
                ..*old(self)
            }),
            (match old(self).missing_output(f) {
                Some(request) => if old(self).custom_textures@.len() < f.pass_sizes@.len() {
                    &&& final(self).custom_textures@ == old(self).custom_textures@.push(
                        Texture { id, size: request.size },
                    )
                    &&& final(self).masked_output == old(self).masked_output
                } else {
                    &&& final(self).custom_textures@ == old(self).custom_textures@
                    &&& final(self).masked_output == Some(Texture { id, size: request.size })
                },
                None => *final(self) == *old(self),
            }),
            old(self).outputs_fit(f) ==> final(self).outputs_fit(f),
    {
        if let Some(request) = self.next_output_texture(f) {
            let texture: Texture = Texture { id, size: request.size };
            if self.custom_textures.len() < f.pass_sizes.len() {
                self.custom_textures.push(texture);
            } else {
                self.masked_output = Some(texture);
            }
        }
    }
}

// ---------------------------------------------------------------------------
// Mask textures
// ---------------------------------------------------------------------------

/// Most subregions that a frame can have.
pub const MAX_SUBREGIONS: usize = 0x4000_0000;

/// Least room that the texture of the subregions has.
pub const MIN_RECTS_CAPACITY: i32 = 16;

/// A capacity, doubled until it is enough.
pub open spec fn doubled_until(capacity: int, needed: int) -> int
    decreases 2 * needed - capacity,
{
    if capacity >= needed || capacity <= 0 {
        capacity
    } else {
        doubled_until(2 * capacity, needed)
    }
}

/// The room that the texture of the subregions gets.
pub open spec fn rects_room(needed: int) -> int {
    doubled_until(MIN_RECTS_CAPACITY as int, needed)
}

proof fn lemma_doubled_until(capacity: int, needed: int, k: nat)
    requires
        capacity == pow2(k),
    ensures
        doubled_until(capacity, needed) >= needed,
        doubled_until(capacity, needed) >= capacity,
        doubled_until(capacity, needed) == capacity || doubled_until(capacity, needed) < 2 * needed,
        exists|n: nat| doubled_until(capacity, needed) == #[trigger] pow2(n),
    decreases 2 * needed - capacity,
{
    lemma_pow2_pos(k);
    if capacity < needed {
        lemma_pow2_unfold(k + 1);
        lemma_doubled_until(2 * capacity, needed, k + 1);
    }
}

/// The texture of the subregions gets the smallest room that is a power of two,
/// not below the least, and enough for all of them.
pub proof fn law_rects_room(needed: int)
    ensures
        rects_room(needed) >= needed,
        rects_room(needed) >= MIN_RECTS_CAPACITY,
        rects_room(needed) == MIN_RECTS_CAPACITY || rects_room(needed) < 2 * needed,
        exists|n: nat| rects_room(needed) == #[trigger] pow2(n),
{
    lemma2_to64();
    lemma_doubled_until(MIN_RECTS_CAPACITY as int, needed, 4);
}

fn compute_rects_room(needed: i32) -> (room: i32)
    requires
        0 <= needed <= MAX_SUBREGIONS,
    ensures
        room == rects_room(needed as int),
{
    let mut room: i32 = MIN_RECTS_CAPACITY;
    while room < needed
        invariant
            0 < room < 0x8000_0000,
            0 <= needed <= MAX_SUBREGIONS,
            rects_room(needed as int) == doubled_until(room as int, needed as int),
        decreases 2 * needed - room,
    {
        room = room * 2;
    }
    room
}

/// One of the kinds of pass occurs.
pub open spec fn has_region_vectors(steps: Seq<MaskPassStep>) -> bool {
    exists|i: int| 0 <= i < steps.len() && #[trigger] steps[i] is RegionVectors
}

fn find_region_vectors(steps: &Vec<MaskPassStep>) -> (r: bool)
    ensures
        r == has_region_vectors(steps@),
{
    let mut i: usize = 0;
    while i < steps.len()
        invariant
            i <= steps@.len(),
            forall|j: int| 0 <= j < i ==> !(#[trigger] steps@[j] is RegionVectors),
        decreases steps@.len() - i,
    {
        if let MaskPassStep::RegionVectors = &steps[i] {
            assert(steps@[i as int] is RegionVectors);
            return true;
        }
        i = i + 1;
    }
    false
}

/// Two pairs of numbers are the same.
pub open spec fn same_pair(a: Pair, b: Pair) -> bool {
    a.x.same_number(b.x) && a.y.same_number(b.y)
}

/// Two quadruples of numbers are the same.
pub open spec fn same_quad(a: Quad, b: Quad) -> bool {
    a.x.same_number(b.x) && a.y.same_number(b.y) && a.z.same_number(b.z) && a.w.same_number(b.w)
}

/// The rendered mask is of another list of subregions.
pub open spec fn other_rects(key: Option<MaskKey>, o: &BlurOptions) -> bool {
    key matches Some(k) ==> k.rects != o.subregion_rects.id
}

/// The rendered mask is of another size.
pub open spec fn other_size(key: Option<MaskKey>, source: Texture) -> bool {
    key matches Some(k) ==> k.size != source.size
}

/// The rendered mask is of other inputs.
pub open spec fn other_inputs(
    key: Option<MaskKey>,
    source: Texture,
    p: &CustomBlurProgram,
    o: &BlurOptions,
) -> bool {
    ||| other_rects(key, o)
    ||| other_size(key, source)
    ||| key matches Some(k) ==> {
        ||| !same_pair(k.geo_size, o.geo_size)
        ||| !same_quad(k.corner_radius, o.corner_radius)
        ||| k.pipeline != p.id
    }
}

/// The box of the region mask: there is one when a mask pass draws it and there
/// are subregions within the source.
pub open spec fn region_box(
    p: &CustomBlurProgram,
    o: &BlurOptions,
    span: RegionSpan,
    source: Texture,
) -> Option<Rect> {
    if has_region_vectors(p.mask_passes@) && o.subregion_rects.rects@.len() > 0 {
        padded_box(span, source.size)
    } else {
        None
    }
}

/// The size of a box.
pub open spec fn box_size(bbox: Rect) -> Extent {
    Extent { w: bbox.w, h: bbox.h }
}

/// The sizes of the levels of a pyramid for the box.
pub open spec fn are_levels(bbox: Rect, levels: Seq<Extent>) -> bool {
    &&& is_depth(box_size(bbox), levels.len())
    &&& forall|k: int|
        0 <= k < levels.len() ==> #[trigger] levels[k] == level_size(box_size(bbox), k as nat)
}

/// The number of textures that a region mask takes: three for each level of the
/// pyramid, and four more.
pub open spec fn field_texture_count(depth: nat) -> nat {
    3 * depth + 4
}

/// The textures of the region mask, in the order in which they are allocated.
pub open spec fn field_request(bbox: Rect, depth: nat, i: nat) -> TextureRequest {
    if i < 3 * depth {
        TextureRequest {
            format: if i % 3 == 2 { Format::Rg16F } else { Format::R32F },
            size: level_size(box_size(bbox), i / 3),
        }
    } else {
        TextureRequest {
            format: if i == 3 * depth { Format::R16F } else { Format::Rgba16F },
            size: box_size(bbox),
        }
    }
}

/// The textures of a region mask, put together from those allocated.
pub open spec fn is_field(t: JfaTextures, bbox: Rect, ids: Seq<u32>) -> bool {
    let depth = t.pyramid@.len() as int;
    &&& t.size == box_size(bbox)
    &&& ids.len() == 3 * depth + 4
    &&& forall|k: int|
        0 <= k < depth ==> #[trigger] t.pyramid@[k] == (MultigridLevel {
            u_a: ids[3 * k],
            u_b: ids[3 * k + 1],
            rhs: ids[3 * k + 2],
            size: level_size(t.size, k as nat),
        })
    &&& t.bin == ids[3 * depth]
    &&& t.jfa_a == ids[3 * depth + 1]
    &&& t.jfa_b == ids[3 * depth + 2]
    &&& t.encoded == ids[3 * depth + 3]
}

/// A texture that a mask needs.
#[derive(Clone, Copy, Debug, PartialEq, Eq, Structural)]
pub enum MaskTexture {
    A,
    B,
    /// The texture of the subregions.
    Rects,
    /// One of the textures of the region mask.
    Field,
}

/// There are no textures of the region mask, or they are of another size.
pub open spec fn field_unfit(t: Option<JfaTextures>, bbox: Rect) -> bool {
    match t {
        Some(t) => t.size != box_size(bbox),
        None => true,
    }
}

fn build_field(bbox: Rect, levels: &Vec<Extent>, ids: &Vec<u32>) -> (t: JfaTextures)
    requires
        bbox.w > 0,
        bbox.h > 0,
        are_levels(bbox, levels@),
        ids@.len() == field_texture_count(levels@.len()),
    ensures
        is_field(t, bbox, ids@),
        t.pyramid@.len() == levels@.len(),
        t.wf(),
{
    let depth: usize = levels.len();
    let size: Extent = Extent { w: bbox.w, h: bbox.h };
    let mut pyramid: Vec<MultigridLevel> = Vec::new();
    while pyramid.len() < depth
        invariant
            depth == levels@.len() <= 12,
            ids@.len() == 3 * depth + 4,
            size == box_size(bbox),
            are_levels(bbox, levels@),
            pyramid@.len() <= depth,
            forall|k: int|
                0 <= k < pyramid@.len() ==> #[trigger] pyramid@[k] == (MultigridLevel {
                    u_a: ids@[3 * k],
                    u_b: ids@[3 * k + 1],
                    rhs: ids@[3 * k + 2],
                    size: level_size(size, k as nat),
                }),
        decreases depth - pyramid@.len(),
    {
        let k: usize = pyramid.len();
        pyramid.push(
            MultigridLevel {
                u_a: ids[3 * k],
                u_b: ids[3 * k + 1],
                rhs: ids[3 * k + 2],
                size: levels[k],
            },
        );
    }
    JfaTextures {
        bin: ids[3 * depth],
        jfa_a: ids[3 * depth + 1],
        jfa_b: ids[3 * depth + 2],
        pyramid,
        encoded: ids[3 * depth + 3],
        size,
    }
}

fn same_pairs(a: Pair, b: Pair) -> (r: bool)
    ensures
        r == same_pair(a, b),
{
    a.x.equals(b.x) && a.y.equals(b.y)
}

fn same_quads(a: Quad, b: Quad) -> (r: bool)
    ensures
        r == same_quad(a, b),
{
    a.x.equals(b.x) && a.y.equals(b.y) && a.z.equals(b.z) && a.w.equals(b.w)
}

impl Blur {
    /// The subregions in source pixels are those of another list or size.
    pub open spec fn stale_rects(&self, f: &CustomFrame, o: &BlurOptions) -> bool {
        ||| other_rects(self.mask_key, o)
        ||| other_size(self.mask_key, f.source)
        ||| self.rects_px@.len() != o.subregion_rects.rects@.len()
    }

    /// Begin with the mask of a frame: find out what has changed since the mask was
    /// rendered, and where the region mask is to be built.
    ///
    /// `rects_px` and `rects_edges` are the subregions in source pixels, exactly
    /// and cut down to whole pixels; `span` is what they cover.
    pub fn begin_mask(
        &mut self,
        f: &mut CustomFrame,
        p: &CustomBlurProgram,
        o: &BlurOptions,
        rects_px: Vec<Quad>,
        rects_edges: Vec<Edges>,
        span: RegionSpan,
    )
        requires
            old(self).wf(),
            old(f).wf(),
            old(f).begun(),
            rects_px@.len() == o.subregion_rects.rects@.len(),
            rects_edges@.len() == o.subregion_rects.rects@.len(),
            span.x > i32::MIN,
            span.y > i32::MIN,
            span.w + 2 <= i32::MAX,
            span.h + 2 <= i32::MAX,
        ensures
            *final(self) == (if old(self).stale_rects(old(f), o) {
                Blur { rects_px, rects_edges, ..*old(self) }
            } else {
                *old(self)
            }),
            *final(f) == (CustomFrame {
                rects_changed: other_rects(old(self).mask_key, o),
                size_changed: other_size(old(self).mask_key, old(f).source),
                inputs_changed: other_inputs(old(self).mask_key, old(f).source, p, o),
                bbox: region_box(p, o, span, old(f).source),
                levels: final(f).levels,
                ..*old(f)
            }),
            final(self).wf(),
            final(f).wf(),
            final(self).rects_px@.len() == o.subregion_rects.rects@.len(),
    {
        let mut rects_changed: bool = true;
        let mut size_changed: bool = true;
        let mut inputs_changed: bool = true;
        if let Some(k) = &self.mask_key {
            rects_changed = k.rects != o.subregion_rects.id;
            size_changed = k.size.w != f.source.size.w || k.size.h != f.source.size.h;
            inputs_changed = rects_changed || size_changed || !same_pairs(k.geo_size, o.geo_size)
                || !same_quads(k.corner_radius, o.corner_radius) || k.pipeline != p.id;
        }
        let stale: bool = rects_changed || size_changed || self.rects_px.len()
            != o.subregion_rects.rects.len();
        assert(stale == self.stale_rects(f, o));
        if stale {
            self.rects_px = rects_px;
            self.rects_edges = rects_edges;
        }
        f.rects_changed = rects_changed;
        f.size_changed = size_changed;
        f.inputs_changed = inputs_changed;
        if o.subregion_rects.rects.len() > 0 && find_region_vectors(&p.mask_passes) {
            proof {
                law_bbox_within_source(span, f.source.size);
            }
            f.bbox = region_bbox(span, f.source.size);
            if let Some(b) = f.bbox {
                f.levels = pyramid_sizes(Extent { w: b.w, h: b.h });
            }
        }
    }

    /// The next texture that the mask of the frame lacks.
    pub open spec fn missing_mask(&self, f: &CustomFrame, o: &BlurOptions) -> Option<MaskTexture> {
        if unfit(self.mask_a, f.source.size) {
            Some(MaskTexture::A)
        } else if unfit(self.mask_b, f.source.size) {
            Some(MaskTexture::B)
        } else if o.subregion_rects.rects@.len() > self.rects_capacity {
            Some(MaskTexture::Rects)
        } else if f.bbox matches Some(b) && field_unfit(self.jfa_textures, b) {
            Some(MaskTexture::Field)
        } else {
            None
        }
    }

    fn find_missing_mask(&self, f: &CustomFrame, o: &BlurOptions) -> (missing: Option<MaskTexture>)
        requires
            o.subregion_rects.rects@.len() <= MAX_SUBREGIONS,
        ensures
            missing == self.missing_mask(f, o),
    {
        if is_unfit(&self.mask_a, f.source.size) {
            return Some(MaskTexture::A);
        }
        if is_unfit(&self.mask_b, f.source.size) {
            return Some(MaskTexture::B);
        }
        if o.subregion_rects.rects.len() as i32 > self.rects_capacity {
            return Some(MaskTexture::Rects);
        }
        if let Some(b) = &f.bbox {
            match &self.jfa_textures {
                Some(t) => {
                    if t.size.w != b.w || t.size.h != b.h {
                        return Some(MaskTexture::Field);
                    }
                },
                None => {
                    return Some(MaskTexture::Field);
                },
            }
        }
        None
    }

    /// What is to be allocated for a texture that the mask lacks.
    pub open spec fn mask_request(f: &CustomFrame, o: &BlurOptions, missing: MaskTexture) ->
        TextureRequest {
        match missing {
            MaskTexture::A | MaskTexture::B => TextureRequest {
                format: Format::Rgba16F,
                size: f.source.size,
            },
            MaskTexture::Rects => TextureRequest {
                format: Format::Rgba32F,
                size: Extent { w: rects_room(o.subregion_rects.rects@.len() as int) as i32, h: 1 },
            },
            MaskTexture::Field => field_request(f.bbox.unwrap(), f.levels@.len(), f.pending@.len()),
        }
    }

    /// The next mask texture to allocate.
    pub fn next_mask_texture(&self, f: &CustomFrame, o: &BlurOptions) -> (request: Option<
        TextureRequest,
    >)
        requires
            f.wf(),
            o.subregion_rects.rects@.len() <= MAX_SUBREGIONS,
        ensures
            request == (match self.missing_mask(f, o) {
                Some(missing) => Some(Blur::mask_request(f, o, missing)),
                None => None,
            }),
    {
        match self.find_missing_mask(f, o) {
            None => None,
            Some(MaskTexture::Rects) => {
                let room: i32 = compute_rects_room(o.subregion_rects.rects.len() as i32);
                Some(TextureRequest { format: Format::Rgba32F, size: Extent { w: room, h: 1 } })
            },
            Some(MaskTexture::Field) => {
                let i: usize = f.pending.len();
                if i < 3 * f.levels.len() {
                    let format: Format = if i % 3 == 2 { Format::Rg16F } else { Format::R32F };
                    Some(TextureRequest { format, size: f.levels[i / 3] })
                } else {
                    let b: Rect = f.bbox.unwrap();
                    let format: Format = if i == 3 * f.levels.len() {
                        Format::R16F
                    } else {
                        Format::Rgba16F
                    };
                    Some(TextureRequest { format, size: Extent { w: b.w, h: b.h } })
                }
            },
            Some(_) => Some(TextureRequest { format: Format::Rgba16F, size: f.source.size }),
        }
    }

    /// Add the mask texture that was asked for.
    ///
    /// A new mask texture holds no mask. The textures of the region mask are put to
    /// use once all of them are there.
    pub fn add_mask_texture(&mut self, f: &mut CustomFrame, o: &BlurOptions, id: u32)
        requires
            old(self).wf(),
            old(f).wf(),
            o.subregion_rects.rects@.len() <= MAX_SUBREGIONS,
        ensures
            (match old(self).missing_mask(old(f), o) {
                None => *final(self) == *old(self) && *final(f) == *old(f),
                Some(MaskTexture::A) => {
                    &&& *final(self) == (Blur {
                        mask_a: Some(Texture { id, size: old(f).source.size }),
                        mask_in_b: None,
                        ..*old(self)
                    })
                    &&& *final(f) == (CustomFrame { masks_new: true, ..*old(f) })
                },
                Some(MaskTexture::B) => {
                    &&& *final(self) == (Blur {
                        mask_b: Some(Texture { id, size: old(f).source.size }),
                        mask_in_b: None,
                        ..*old(self)
                    })
                    &&& *final(f) == (CustomFrame { masks_new: true, ..*old(f) })
                },
                Some(MaskTexture::Rects) => {
                    &&& *final(self) == (Blur {
                        rects_texture: Some(id),
                        rects_capacity: rects_room(o.subregion_rects.rects@.len() as int) as i32,
                        ..*old(self)
                    })
                    &&& *final(f) == (CustomFrame { rects_texture_new: true, ..*old(f) })
                },
                Some(MaskTexture::Field) => {
                    let ids = old(f).pending@.push(id);
                    if ids.len() < field_texture_count(old(f).levels@.len()) {
                        &&& *final(self) == *old(self)
                        &&& *final(f) == (CustomFrame { pending: final(f).pending, ..*old(f) })
                        &&& final(f).pending@ == ids
                    } else {
                        &&& *final(self) == (Blur {
                            jfa_textures: final(self).jfa_textures,
                            ..*old(self)
                        })
                        &&& final(self).jfa_textures matches Some(t)
                        &&& is_field(t, old(f).bbox.unwrap(), ids)
                        &&& *final(f) == (CustomFrame {
                            pending: final(f).pending,
                            field_new: true,
                            ..*old(f)
                        })
                        &&& final(f).pending@.len() == 0
                    }
                },
            }),
            final(self).wf(),
            final(f).wf(),
    {
        match self.find_missing_mask(f, o) {
            None => {},
            Some(MaskTexture::A) => {
                self.mask_a = Some(Texture { id, size: f.source.size });
                self.mask_in_b = None;
                f.masks_new = true;
            },
            Some(MaskTexture::B) => {
                self.mask_b = Some(Texture { id, size: f.source.size });
                self.mask_in_b = None;
                f.masks_new = true;
            },
            Some(MaskTexture::Rects) => {
                self.rects_texture = Some(id);
                self.rects_capacity = compute_rects_room(o.subregion_rects.rects.len() as i32);
                f.rects_texture_new = true;
            },
            Some(MaskTexture::Field) => {
                f.pending.push(id);
                if f.pending.len() == 3 * f.levels.len() + 4 {
                    let b: Rect = f.bbox.unwrap();
                    self.jfa_textures = Some(build_field(b, &f.levels, &f.pending));
                    f.pending = Vec::new();
                    f.field_new = true;
                }
            },
        }
    }
}

// ---------------------------------------------------------------------------
// Reuse of the encoded field
// ---------------------------------------------------------------------------

impl Blur {
    /// The encoded field is still valid: it was built, its textures were there before
    /// this frame, the box has the size that was noted last, and the rectangles have
    /// the places in it that were noted.
    pub open spec fn field_valid(&self, f: &CustomFrame, count: nat, close: bool) -> bool {
        &&& f.bbox matches Some(b)
        &&& !f.field_new
        &&& self.field.built
        &&& self.field.bbox_size == Some(box_size(b))
        &&& self.field.rects_local@.len() == count
        &&& close
    }

    /// The encoded texture holds what the frame asks for, before anything is drawn:
    /// the field is still valid, or it is the one that the rendered mask was made
    /// with, and that mask is still right.
    pub open spec fn field_kept(&self, f: &CustomFrame, count: nat, close: bool) -> bool {
        &&& self.field.built
        &&& !f.field_new
        &&& self.field_valid(f, count, close) || self.mask_hit(f)
    }

    /// Find out whether the encoded field is still valid, and note what it is asked
    /// for now. One that is not has to be built before it counts again.
    ///
    /// `rects_local` are the subregions relative to the origin of the box, and
    /// `close` says that each of them is where the one noted before was.
    pub fn settle_field(&mut self, f: &mut CustomFrame, rects_local: Vec<Quad>, close: bool)
        requires
            old(self).wf(),
            old(f).wf(),
        ensures
            *final(self) == (Blur { field: final(self).field, ..*old(self) }),
            final(self).field == (FieldCache {
                rects_local: final(self).field.rects_local,
                bbox_size: final(self).field.bbox_size,
                built: old(self).field_kept(old(f), rects_local@.len(), close),
                ..old(self).field
            }),
            (match old(f).bbox {
                Some(b) if !old(f).field_new => {
                    &&& final(self).field.rects_local == rects_local
                    &&& final(self).field.bbox_size == Some(box_size(b))
                },
                _ => {
                    &&& final(self).field.rects_local@.len() == 0
                    &&& final(self).field.bbox_size is None
                },
            }),
            *final(f) == (CustomFrame {
                field_hit: old(self).field_valid(old(f), rects_local@.len(), close),
                field_previous: if old(self).field_valid(old(f), rects_local@.len(), close) {
                    Some(
                        Rect {
                            x: old(self).field.bbox_x,
                            y: old(self).field.bbox_y,
                            w: old(f).bbox.unwrap().w,
                            h: old(f).bbox.unwrap().h,
                        },
                    )
                } else {
                    None
                },
                ..*old(f)
            }),
            final(self).wf(),
            final(f).wf(),
    {
        f.field_hit = false;
        f.field_previous = None;
        let unchanged: bool = self.is_mask_hit(f);
        if let Some(b) = f.bbox {
            if !f.field_new {
                let same_size: bool = match self.field.bbox_size {
                    Some(size) => size.w == b.w && size.h == b.h,
                    None => false,
                };
                if self.field.built && same_size && self.field.rects_local.len()
                    == rects_local.len() && close {
                    f.field_hit = true;
                    f.field_previous = Some(
                        Rect { x: self.field.bbox_x, y: self.field.bbox_y, w: b.w, h: b.h },
                    );
                }
                self.field.rects_local = rects_local;
                self.field.bbox_size = Some(Extent { w: b.w, h: b.h });
                self.field.built = self.field.built && (f.field_hit || unchanged);
                return;
            }
        }
        self.field.rects_local.clear();
        self.field.bbox_size = None;
        self.field.built = self.field.built && !f.field_new && unchanged;
    }
}

impl Blur {
    /// Forget the rendered mask and the encoded field, as after a frame that was
    /// given up: what it planned was not drawn, so the next one draws everything anew.
    pub fn forget_mask(&mut self)
        requires
            old(self).wf(),
        ensures
            *final(self) == (Blur {
                mask_key: None,
                mask_in_b: None,
                field: final(self).field,
                ..*old(self)
            }),
            final(self).field == (FieldCache {
                rects_local: final(self).field.rects_local,
                bbox_size: None,
                built: false,
                owner: None,
                ..old(self).field
            }),
            final(self).field.rects_local@.len() == 0,
            final(self).wf(),
    {
        self.mask_key = None;
        self.mask_in_b = None;
        self.field.rects_local.clear();
        self.field.bbox_size = None;
        self.field.built = false;
        self.field.owner = None;
    }
}

// ---------------------------------------------------------------------------
// Kawase passes
// ---------------------------------------------------------------------------

/// The number of passes of a Kawase step.
pub open spec fn step_passes(passes: Option<u8>, o: &BlurOptions) -> nat {
    match passes {
        Some(n) => clamped(n),
        None => clamped(o.passes),
    }
}

/// The most passes that any of the Kawase steps has; none without such a step.
pub open spec fn most_passes(steps: Seq<RenderPassStep>, o: &BlurOptions) -> nat
    decreases steps.len(),
{
    if steps.len() == 0 {
        0
    } else {
        let before = most_passes(steps.drop_last(), o);
        match steps.last() {
            RenderPassStep::DualKawaseBlur { passes, .. } => if step_passes(passes, o) > before {
                step_passes(passes, o)
            } else {
                before
            },
            _ => before,
        }
    }
}

fn compute_step_passes(passes: Option<u8>, o: &BlurOptions) -> (n: usize)
    ensures
        n == step_passes(passes, o),
        1 <= n <= MAX_KAWASE_PASSES,
{
    match passes {
        Some(p) => clamp_passes(p),
        None => clamp_passes(o.passes),
    }
}

/// The number of passes whose chain of textures a frame needs. The chain is for the
/// longest of the Kawase steps.
pub fn max_kawase_passes(p: &CustomBlurProgram, o: &BlurOptions) -> (n: usize)
    ensures
        n == most_passes(p.render_passes@, o),
        n <= MAX_KAWASE_PASSES,
{
    let ghost steps = p.render_passes@;
    let mut n: usize = 0;
    let mut i: usize = 0;
    while i < p.render_passes.len()
        invariant
            steps == p.render_passes@,
            i <= steps.len(),
            n == most_passes(steps.take(i as int), o),
            n <= MAX_KAWASE_PASSES,
        decreases steps.len() - i,
    {
        assert(steps.take(i + 1).drop_last() =~= steps.take(i as int));
        if let RenderPassStep::DualKawaseBlur { passes, .. } = &p.render_passes[i] {
            let m: usize = compute_step_passes(*passes, o);
            if m > n {
                n = m;
            }
        }
        i = i + 1;
    }
    assert(steps.take(i as int) =~= steps);
    n
}

/// No Kawase step has more passes than the chain is for.
pub proof fn lemma_most_passes(steps: Seq<RenderPassStep>, o: &BlurOptions, i: int)
    requires
        0 <= i < steps.len(),
    ensures
        steps[i] matches RenderPassStep::DualKawaseBlur { passes, .. } ==> 1 <= step_passes(
            passes,
            o,
        ) <= most_passes(steps, o),
    decreases steps.len(),
{
    if i < steps.len() - 1 {
        lemma_most_passes(steps.drop_last(), o, i);
        assert(steps.drop_last()[i] == steps[i]);
    }
}

// ---------------------------------------------------------------------------
// Programs
// ---------------------------------------------------------------------------

/// A built-in program.
#[derive(Clone, Copy, Debug, PartialEq, Eq, Structural)]
pub enum BuiltinProgram {
    Binary,
    WindowMask,
    Jfa,
    OutputMask,
}

/// The first mask pass draws a mask by itself and needs no binary mask to start
/// from.
pub open spec fn first_is_vector(steps: Seq<MaskPassStep>) -> bool {
    steps.len() > 0 && (steps[0] is WindowVectors || steps[0] is RegionVectors)
}

/// One of the mask passes is that of the window.
pub open spec fn has_window_vectors(steps: Seq<MaskPassStep>) -> bool {
    exists|i: int| 0 <= i < steps.len() && #[trigger] steps[i] is WindowVectors
}

fn find_window_vectors(steps: &Vec<MaskPassStep>) -> (r: bool)
    ensures
        r == has_window_vectors(steps@),
{
    let mut i: usize = 0;
    while i < steps.len()
        invariant
            i <= steps@.len(),
            forall|j: int| 0 <= j < i ==> !(#[trigger] steps@[j] is WindowVectors),
        decreases steps@.len() - i,
    {
        if let MaskPassStep::WindowVectors = &steps[i] {
            assert(steps@[i as int] is WindowVectors);
            return true;
        }
        i = i + 1;
    }
    false
}

fn starts_with_vector(steps: &Vec<MaskPassStep>) -> (r: bool)
    ensures
        r == first_is_vector(steps@),
{
    if steps.len() == 0 {
        return false;
    }
    match &steps[0] {
        MaskPassStep::WindowVectors | MaskPassStep::RegionVectors => true,
        MaskPassStep::Custom { .. } => false,
    }
}

impl Blur {
    /// The rendered mask is still right for the frame.
    pub open spec fn mask_hit(&self, f: &CustomFrame) -> bool {
        !f.masks_new && !f.inputs_changed && self.mask_in_b is Some
    }

    fn is_mask_hit(&self, f: &CustomFrame) -> (r: bool)
        ensures
            r == self.mask_hit(f),
    {
        !f.masks_new && !f.inputs_changed && self.mask_in_b.is_some()
    }

    /// The textures of the region mask are there.
    pub open spec fn field_ready(&self, f: &CustomFrame) -> bool {
        f.bbox is Some && self.jfa_textures is Some && self.rects_texture is Some
    }

    /// The program that produces the last mask is there, so that the mask is exact.
    pub open spec fn exact_mask(&self, p: &CustomBlurProgram) -> bool {
        if p.mask_passes@.len() == 0 {
            self.programs.binary
        } else {
            p.mask_passes@.last() is RegionVectors && self.programs.jfa
        }
    }

    fn has_exact_mask(&self, p: &CustomBlurProgram) -> (r: bool)
        ensures
            r == self.exact_mask(p),
    {
        let n: usize = p.mask_passes.len();
        if n == 0 {
            return self.programs.binary;
        }
        match &p.mask_passes[n - 1] {
            MaskPassStep::RegionVectors => self.programs.jfa,
            _ => false,
        }
    }

    /// The next program that the frame could use and that neither is there nor has
    /// failed to compile in this frame: those of the mask passes, then that of the
    /// clipped output.
    pub open spec fn missing_program(
        &self,
        f: &CustomFrame,
        p: &CustomBlurProgram,
        o: &BlurOptions,
        failed: Programs,
    ) -> Option<BuiltinProgram> {
        let drawn = !self.mask_hit(f);
        if drawn && !first_is_vector(p.mask_passes@) && o.subregion_rects.rects@.len() > 0
            && self.rects_texture is Some && !self.programs.binary && !failed.binary {
            Some(BuiltinProgram::Binary)
        } else if drawn && has_window_vectors(p.mask_passes@) && !self.programs.window_mask
            && !failed.window_mask {
            Some(BuiltinProgram::WindowMask)
        } else if drawn && has_region_vectors(p.mask_passes@) && self.field_ready(f) && !f.field_hit
            && !self.programs.jfa && !failed.jfa {
            Some(BuiltinProgram::Jfa)
        } else if f.clip && self.exact_mask(p) && !self.programs.output_mask
            && !failed.output_mask {
            Some(BuiltinProgram::OutputMask)
        } else {
            None
        }
    }

    /// The next program to compile.
    pub fn next_program(
        &self,
        f: &CustomFrame,
        p: &CustomBlurProgram,
        o: &BlurOptions,
        failed: Programs,
    ) -> (program: Option<BuiltinProgram>)
        ensures
            program == self.missing_program(f, p, o, failed),
    {
        let drawn: bool = !self.is_mask_hit(f);
        if drawn && !starts_with_vector(&p.mask_passes) && o.subregion_rects.rects.len() > 0
            && self.rects_texture.is_some() && !self.programs.binary && !failed.binary {
            return Some(BuiltinProgram::Binary);
        }
        if drawn && find_window_vectors(&p.mask_passes) && !self.programs.window_mask
            && !failed.window_mask {
            return Some(BuiltinProgram::WindowMask);
        }
        if drawn && find_region_vectors(&p.mask_passes) && f.bbox.is_some()
            && self.jfa_textures.is_some() && self.rects_texture.is_some() && !f.field_hit
            && !self.programs.jfa && !failed.jfa {
            return Some(BuiltinProgram::Jfa);
        }
        if f.clip && self.has_exact_mask(p) && !self.programs.output_mask && !failed.output_mask {
            return Some(BuiltinProgram::OutputMask);
        }
        None
    }

    /// The programs with one more among them.
    pub open spec fn with_program(programs: Programs, program: BuiltinProgram) -> Programs {
        match program {
            BuiltinProgram::Binary => Programs { binary: true, ..programs },
            BuiltinProgram::WindowMask => Programs { window_mask: true, ..programs },
            BuiltinProgram::Jfa => Programs { jfa: true, ..programs },
            BuiltinProgram::OutputMask => Programs { output_mask: true, ..programs },
        }
    }

    fn mark_program(programs: &mut Programs, program: BuiltinProgram)
        ensures
            *final(programs) == Blur::with_program(*old(programs), program),
    {
        match program {
            BuiltinProgram::Binary => programs.binary = true,
            BuiltinProgram::WindowMask => programs.window_mask = true,
            BuiltinProgram::Jfa => programs.jfa = true,
            BuiltinProgram::OutputMask => programs.output_mask = true,
        }
    }

    /// Note the outcome of compiling a program: it is kept, or has failed for this
    /// frame.
    pub fn add_program(&mut self, program: BuiltinProgram, compiled: bool, failed: &mut Programs)
        requires
            old(self).wf(),
        ensures
            *final(self) == (Blur {
                programs: if compiled {
                    Blur::with_program(old(self).programs, program)
                } else {
                    old(self).programs
                },
                ..*old(self)
            }),
            *final(failed) == (if compiled {
                *old(failed)
            } else {
                Blur::with_program(*old(failed), program)
            }),
            final(self).wf(),
    {
        if compiled {
            Blur::mark_program(&mut self.programs, program);
        } else {
            Blur::mark_program(failed, program);
        }
    }
}

// ---------------------------------------------------------------------------
// The mask of a frame
// ---------------------------------------------------------------------------

/// A mask texture is sampled linearly from here on.
pub open spec fn smooth_sampling(mask: u32) -> GpuOp {
    GpuOp::Sample { texture: mask, sampling: Sampling::Clamped(Filter::Linear) }
}

impl Blur {
    /// The mask texture that B or A stands for.
    pub open spec fn mask_id(&self, in_b: bool) -> u32 {
        if in_b {
            self.mask_b.unwrap().id
        } else {
            self.mask_a.unwrap().id
        }
    }

    /// The subregions are uploaded when their texture, their list or the size is
    /// new.
    pub open spec fn upload_ops(&self, f: &CustomFrame) -> Seq<GpuOp> {
        if (f.rects_texture_new || f.rects_changed || f.size_changed) && self.rects_texture is Some
            && self.rects_px@.len() > 0 {
            seq![
                GpuOp::Upload {
                    texture: self.rects_texture.unwrap(),
                    texels: self.rects_px@.len() as i32,
                },
            ]
        } else {
            seq![]
        }
    }

    /// The binary mask that the mask passes start from, in texture A. A pass that
    /// draws a mask by itself needs none.
    pub open spec fn start_ops(&self, f: &CustomFrame, p: &CustomBlurProgram, o: &BlurOptions) ->
        Seq<GpuOp> {
        let target = self.mask_id(false);
        let count = o.subregion_rects.rects@.len();
        if first_is_vector(p.mask_passes@) {
            seq![]
        } else {
            seq![GpuOp::Clear { target, region: None }] + (if count > 0 && self.rects_texture is Some
                && self.programs.binary {
                binary_mask_ops(
                    target,
                    self.rects_texture.unwrap(),
                    count as i32,
                    Rect { x: 0, y: 0, w: f.source.size.w, h: f.source.size.h },
                )
            } else {
                seq![]
            }) + seq![
                GpuOp::Sample { texture: target, sampling: Sampling::Clamped(Filter::Nearest) },
            ]
        }
    }

    /// The mask texture that a mask pass writes: B first, then in turn.
    pub open spec fn pass_target(&self, i: int) -> u32 {
        self.mask_id(i % 2 == 0)
    }

    /// The mask texture that a mask pass starts from.
    pub open spec fn pass_origin(&self, i: int) -> u32 {
        self.mask_id(i % 2 == 1)
    }

    /// The mask texture that holds the encoded field after a number of mask passes:
    /// a region pass puts it there, any other pass draws over it, and so does a region
    /// pass without subregions. A window pass without its program draws nothing.
    pub open spec fn owner_after(&self, f: &CustomFrame, p: &CustomBlurProgram, n: nat) -> Option<
        u32,
    >
        decreases n,
    {
        if n == 0 {
            self.field.owner
        } else {
            let before = self.owner_after(f, p, (n - 1) as nat);
            let target = self.pass_target(n - 1);
            match p.mask_passes@[n - 1] {
                MaskPassStep::RegionVectors => if self.field_ready(f) {
                    Some(target)
                } else if before == Some(target) {
                    None
                } else {
                    before
                },
                MaskPassStep::WindowVectors => if self.programs.window_mask && before == Some(
                    target,
                ) {
                    None
                } else {
                    before
                },
                MaskPassStep::Custom { .. } => if before == Some(target) {
                    None
                } else {
                    before
                },
            }
        }
    }

    /// The analytical mask of the window.
    pub open spec fn window_pass_ops(&self, f: &CustomFrame, o: &BlurOptions, i: int) -> Seq<
        GpuOp,
    > {
        let target = self.pass_target(i);
        if self.programs.window_mask {
            seq![
                GpuOp::Draw(
                    Draw {
                        pass: Pass::WindowMask {
                            geo_size: o.geo_size,
                            corner_radius: o.corner_radius,
                        },
                        target,
                        viewport: f.source.size,
                        unit0: None,
                        unit1: None,
                        unit2: None,
                        channels: Channels::All,
                    },
                ),
                smooth_sampling(target),
            ]
        } else {
            seq![]
        }
    }

    /// The region mask that a mask pass draws.
    pub open spec fn region_mask(&self, f: &CustomFrame, o: &BlurOptions, i: int) -> RegionMask {
        RegionMask {
            mask: self.pass_target(i),
            bbox: f.bbox.unwrap(),
            source: f.source.size,
            rects_texture: self.rects_texture.unwrap(),
            instances: o.subregion_rects.rects@.len() as i32,
        }
    }

    /// Where the encoded field has to be cleared from: only the first pass can know
    /// that nothing else is on the mask.
    pub open spec fn cleared_box(&self, f: &CustomFrame, p: &CustomBlurProgram, i: int) -> Option<
        Rect,
    > {
        if i == 0 && self.owner_after(f, p, 0) == Some(self.pass_target(0)) {
            f.field_previous
        } else {
            None
        }
    }

    /// The region mask. Without subregions within the source it is zero everywhere.
    pub open spec fn region_pass_ops(
        &self,
        f: &CustomFrame,
        p: &CustomBlurProgram,
        o: &BlurOptions,
        i: int,
    ) -> Seq<GpuOp> {
        if self.field_ready(f) {
            region_mask_ops(
                &self.jfa_textures.unwrap(),
                self.region_mask(f, o, i),
                self.rects_edges@,
                f.field_hit,
                self.cleared_box(f, p, i),
                self.programs.jfa,
            )
        } else {
            seq![GpuOp::Clear { target: self.pass_target(i), region: None }]
        }
    }

    /// A custom mask pass: it reads the mask so far and the subregions.
    pub open spec fn custom_mask_ops(
        &self,
        f: &CustomFrame,
        p: &CustomBlurProgram,
        o: &BlurOptions,
        i: int,
    ) -> Seq<GpuOp> {
        let target = self.pass_target(i);
        let count = o.subregion_rects.rects@.len();
        if p.mask_programs@[i] is Some {
            seq![
                GpuOp::Draw(
                    Draw {
                        pass: Pass::CustomMask {
                            index: i as usize,
                            subregions: count as i32,
                            output: f.source.size,
                            geo_size: o.geo_size,
                            corner_radius: o.corner_radius,
                        },
                        target,
                        viewport: f.source.size,
                        unit0: Some(
                            Binding {
                                texture: self.pass_origin(i),
                                sampling: Sampling::Clamped(Filter::Linear),
                            },
                        ),
                        unit1: match self.rects_texture {
                            Some(texture) if count > 0 => Some(
                                Binding { texture, sampling: Sampling::Keep },
                            ),
                            _ => None,
                        },
                        unit2: None,
                        channels: Channels::All,
                    },
                ),
                smooth_sampling(target),
            ]
        } else {
            seq![]
        }
    }

    /// One mask pass.
    pub open spec fn mask_pass_ops(
        &self,
        f: &CustomFrame,
        p: &CustomBlurProgram,
        o: &BlurOptions,
        i: int,
    ) -> Seq<GpuOp> {
        match p.mask_passes@[i] {
            MaskPassStep::WindowVectors => self.window_pass_ops(f, o, i),
            MaskPassStep::RegionVectors => self.region_pass_ops(f, p, o, i),
            MaskPassStep::Custom { .. } => self.custom_mask_ops(f, p, o, i),
        }
    }

    /// The first mask passes.
    pub open spec fn mask_passes_ops(
        &self,
        f: &CustomFrame,
        p: &CustomBlurProgram,
        o: &BlurOptions,
        n: nat,
    ) -> Seq<GpuOp>
        decreases n,
    {
        if n == 0 {
            seq![]
        } else {
            self.mask_passes_ops(f, p, o, (n - 1) as nat) + self.mask_pass_ops(f, p, o, n - 1)
        }
    }

    /// All that draws the mask: nothing, if the rendered mask is still right.
    pub open spec fn mask_ops(&self, f: &CustomFrame, p: &CustomBlurProgram, o: &BlurOptions) ->
        Seq<GpuOp> {
        if self.mask_hit(f) {
            seq![]
        } else {
            self.upload_ops(f) + self.start_ops(f, p, o) + self.mask_passes_ops(
                f,
                p,
                o,
                p.mask_passes@.len(),
            )
        }
    }

    /// Whether the mask ends up in texture B: it does after an odd number of passes.
    pub open spec fn ends_in_b(&self, f: &CustomFrame, p: &CustomBlurProgram) -> bool {
        if self.mask_hit(f) {
            self.mask_in_b.unwrap()
        } else {
            p.mask_passes@.len() % 2 == 1
        }
    }

    /// The frame draws a region pass.
    pub open spec fn places_field(&self, f: &CustomFrame, p: &CustomBlurProgram) -> bool {
        !self.mask_hit(f) && has_region_vectors(p.mask_passes@) && self.field_ready(f)
    }

    /// The frame builds the encoded field anew.
    pub open spec fn builds_field(&self, f: &CustomFrame, p: &CustomBlurProgram) -> bool {
        self.places_field(f, p) && !f.field_hit && self.programs.jfa
    }

    /// What the mask of the frame depends on.
    pub open spec fn frame_key(f: &CustomFrame, p: &CustomBlurProgram, o: &BlurOptions) -> MaskKey {
        MaskKey {
            rects: o.subregion_rects.id,
            size: f.source.size,
            geo_size: o.geo_size,
            corner_radius: o.corner_radius,
            pipeline: p.id,
        }
    }

    /// The blur after the mask of the frame has been drawn.
    pub open spec fn after_mask(
        &self,
        f: &CustomFrame,
        p: &CustomBlurProgram,
        o: &BlurOptions,
    ) -> Blur {
        if self.mask_hit(f) {
            *self
        } else {
            Blur {
                mask_key: Some(Blur::frame_key(f, p, o)),
                mask_in_b: Some(self.ends_in_b(f, p)),
                field: FieldCache {
                    built: self.field.built || self.builds_field(f, p),
                    bbox_x: if self.places_field(f, p) {
                        f.bbox.unwrap().x
                    } else {
                        self.field.bbox_x
                    },
                    bbox_y: if self.places_field(f, p) {
                        f.bbox.unwrap().y
                    } else {
                        self.field.bbox_y
                    },
                    owner: self.owner_after(f, p, p.mask_passes@.len()),
                    ..self.field
                },
                ..*self
            }
        }
    }

    /// All that a frame needs has been supplied.
    pub open spec fn ready(&self, f: &CustomFrame, p: &CustomBlurProgram, o: &BlurOptions) -> bool {
        &&& p.wf()
        &&& p.render_passes@.len() > 0
        &&& f.pass_sizes@.len() == p.render_passes@.len()
        &&& self.custom_textures@.len() == p.render_passes@.len()
        &&& o.subregion_rects.rects@.len() <= MAX_SUBREGIONS
        &&& self.rects_px@.len() == o.subregion_rects.rects@.len()
        &&& self.missing_output(f) is None
        &&& self.missing_mask(f, o) is None
        &&& most_passes(p.render_passes@, o) > 0 ==> self.textures@.len() == most_passes(
            p.render_passes@,
            o,
        ) + 1
    }

    fn push_window_pass(
        &self,
        ops: &mut Vec<GpuOp>,
        f: &CustomFrame,
        o: &BlurOptions,
        i: usize,
        target: u32,
    )
        requires
            target == self.pass_target(i as int),
        ensures
            final(ops)@ == old(ops)@ + self.window_pass_ops(f, o, i as int),
    {
        if self.programs.window_mask {
            ops.push(
                GpuOp::Draw(
                    Draw {
                        pass: Pass::WindowMask {
                            geo_size: o.geo_size,
                            corner_radius: o.corner_radius,
                        },
                        target,
                        viewport: f.source.size,
                        unit0: None,
                        unit1: None,
                        unit2: None,
                        channels: Channels::All,
                    },
                ),
            );
            ops.push(
                GpuOp::Sample { texture: target, sampling: Sampling::Clamped(Filter::Linear) },
            );
        }
        assert(ops@ =~= old(ops)@ + self.window_pass_ops(f, o, i as int));
    }

    fn push_region_pass(
        &self,
        ops: &mut Vec<GpuOp>,
        f: &CustomFrame,
        p: &CustomBlurProgram,
        o: &BlurOptions,
        i: usize,
        target: u32,
    )
        requires
            self.wf(),
            f.wf(),
            target == self.pass_target(i as int),
        ensures
            final(ops)@ == old(ops)@ + self.region_pass_ops(f, p, o, i as int),
    {
        if let Some(bbox) = f.bbox {
            if let Some(t) = &self.jfa_textures {
                if let Some(rects_texture) = self.rects_texture {
                    let owned: bool = match self.field.owner {
                        Some(owner) => owner == target,
                        None => false,
                    };
                    let previous: Option<Rect> = if i == 0 && owned {
                        f.field_previous
                    } else {
                        None
                    };
                    let region: RegionMask = RegionMask {
                        mask: target,
                        bbox,
                        source: f.source.size,
                        rects_texture,
                        instances: o.subregion_rects.rects.len() as i32,
                    };
                    render_jfa_mask(
                        ops,
                        t,
                        region,
                        &self.rects_edges,
                        f.field_hit,
                        previous,
                        self.programs.jfa,
                    );
                    return;
                }
            }
        }
        clear_mask_texture(ops, target);
        assert(ops@ =~= old(ops)@ + self.region_pass_ops(f, p, o, i as int));
    }

    fn push_custom_mask(
        &self,
        ops: &mut Vec<GpuOp>,
        f: &CustomFrame,
        p: &CustomBlurProgram,
        o: &BlurOptions,
        i: usize,
        origin: u32,
        target: u32,
    )
        requires
            i < p.mask_programs@.len(),
            origin == self.pass_origin(i as int),
            target == self.pass_target(i as int),
        ensures
            final(ops)@ == old(ops)@ + self.custom_mask_ops(f, p, o, i as int),
    {
        if p.mask_programs[i].is_some() {
            let count: usize = o.subregion_rects.rects.len();
            let rects: Option<Binding> = match self.rects_texture {
                Some(texture) => if count > 0 {
                    Some(Binding { texture, sampling: Sampling::Keep })
                } else {
                    None
                },
                None => None,
            };
            ops.push(
                GpuOp::Draw(
                    Draw {
                        pass: Pass::CustomMask {
                            index: i,
                            subregions: count as i32,
                            output: f.source.size,
                            geo_size: o.geo_size,
                            corner_radius: o.corner_radius,
                        },
                        target,
                        viewport: f.source.size,
                        unit0: Some(
                            Binding {
                                texture: origin,
                                sampling: Sampling::Clamped(Filter::Linear),
                            },
                        ),
                        unit1: rects,
                        unit2: None,
                        channels: Channels::All,
                    },
                ),
            );
            ops.push(
                GpuOp::Sample { texture: target, sampling: Sampling::Clamped(Filter::Linear) },
            );
        }
        assert(ops@ =~= old(ops)@ + self.custom_mask_ops(f, p, o, i as int));
    }

    fn push_start(
        &self,
        ops: &mut Vec<GpuOp>,
        f: &CustomFrame,
        p: &CustomBlurProgram,
        o: &BlurOptions,
    )
        requires
            self.mask_a is Some,
        ensures
            final(ops)@ == old(ops)@ + self.start_ops(f, p, o),
    {
        if !starts_with_vector(&p.mask_passes) {
            let target: u32 = self.mask_a.unwrap().id;
            clear_mask_texture(ops, target);
            let count: usize = o.subregion_rects.rects.len();
            if count > 0 && self.programs.binary {
                if let Some(rects_texture) = self.rects_texture {
                    render_binary_mask(
                        ops,
                        target,
                        rects_texture,
                        count as i32,
                        Rect { x: 0, y: 0, w: f.source.size.w, h: f.source.size.h },
                    );
                }
            }
            ops.push(
                GpuOp::Sample { texture: target, sampling: Sampling::Clamped(Filter::Nearest) },
            );
        }
        assert(ops@ =~= old(ops)@ + self.start_ops(f, p, o));
    }

    /// Draw the mask of a frame, and note what it depends on.
    pub fn render_mask(
        &mut self,
        ops: &mut Vec<GpuOp>,
        f: &CustomFrame,
        p: &CustomBlurProgram,
        o: &BlurOptions,
    )
        requires
            old(self).wf(),
            f.wf(),
            old(self).ready(f, p, o),
        ensures
            final(ops)@ == old(ops)@ + old(self).mask_ops(f, p, o),
            *final(self) == old(self).after_mask(f, p, o),
            final(self).wf(),
            final(self).ready(f, p, o),
    {
        if self.is_mask_hit(f) {
            assert(ops@ =~= old(ops)@ + old(self).mask_ops(f, p, o));
            return;
        }
        if f.rects_texture_new || f.rects_changed || f.size_changed {
            if let Some(texture) = self.rects_texture {
                if self.rects_px.len() > 0 {
                    ops.push(GpuOp::Upload { texture, texels: self.rects_px.len() as i32 });
                }
            }
        }
        assert(ops@ =~= old(ops)@ + old(self).upload_ops(f));
        self.push_start(ops, f, p, o);
        let ghost begun = ops@;
        let mut owner: Option<u32> = self.field.owner;
        let a: u32 = self.mask_a.unwrap().id;
        let b: u32 = self.mask_b.unwrap().id;
        let mut in_b: bool = false;
        let mut i: usize = 0;
        assert(ops@ =~= begun + self.mask_passes_ops(f, p, o, 0));
        while i < p.mask_passes.len()
            invariant
                *self == *old(self),
                self.wf(),
                f.wf(),
                p.wf(),
                self.mask_a is Some,
                self.mask_b is Some,
                a == self.mask_id(false),
                b == self.mask_id(true),
                i <= p.mask_passes@.len(),
                in_b == (i % 2 == 1),
                owner == self.owner_after(f, p, i as nat),
                ops@ == begun + self.mask_passes_ops(f, p, o, i as nat),
            decreases p.mask_passes@.len() - i,
        {
            let target: u32 = if in_b { a } else { b };
            let origin: u32 = if in_b { b } else { a };
            let owned: bool = match owner {
                Some(id) => id == target,
                None => false,
            };
            match &p.mask_passes[i] {
                MaskPassStep::WindowVectors => {
                    self.push_window_pass(ops, f, o, i, target);
                    if self.programs.window_mask && owned {
                        owner = None;
                    }
                },
                MaskPassStep::RegionVectors => {
                    self.push_region_pass(ops, f, p, o, i, target);
                    if f.bbox.is_some() && self.jfa_textures.is_some()
                        && self.rects_texture.is_some() {
                        owner = Some(target);
                    } else if owned {
                        owner = None;
                    }
                },
                MaskPassStep::Custom { .. } => {
                    self.push_custom_mask(ops, f, p, o, i, origin, target);
                    if owned {
                        owner = None;
                    }
                },
            }
            assert(ops@ =~= begun + self.mask_passes_ops(f, p, o, (i + 1) as nat));
            in_b = !in_b;
            i = i + 1;
        }
        assert(ops@ =~= old(ops)@ + old(self).mask_ops(f, p, o));
        self.mask_key = Some(
            MaskKey {
                rects: o.subregion_rects.id,
                size: f.source.size,
                geo_size: o.geo_size,
                corner_radius: o.corner_radius,
                pipeline: p.id,
            },
        );
        self.mask_in_b = Some(in_b);
        self.field.owner = owner;
        if let Some(bbox) = f.bbox {
            if find_region_vectors(&p.mask_passes) && self.jfa_textures.is_some()
                && self.rects_texture.is_some() {
                self.field.bbox_x = bbox.x;
                self.field.bbox_y = bbox.y;
                if !f.field_hit && self.programs.jfa {
                    self.field.built = true;
                }
            }
        }
    }
}

// ---------------------------------------------------------------------------
// The render passes of a frame
// ---------------------------------------------------------------------------

impl Blur {
    /// The texture that a render pass reads: the source, then the output of the
    /// pass before.
    pub open spec fn render_origin(&self, f: &CustomFrame, i: int) -> u32 {
        if i == 0 {
            f.source.id
        } else {
            self.custom_textures@[i - 1].id
        }
    }

    /// The size of what a render pass reads.
    pub open spec fn origin_size(f: &CustomFrame, i: int) -> Extent {
        if i == 0 {
            f.source.size
        } else {
            f.pass_sizes@[i - 1]
        }
    }

    /// A custom render pass.
    pub open spec fn custom_render_ops(
        &self,
        f: &CustomFrame,
        p: &CustomBlurProgram,
        o: &BlurOptions,
        mask: u32,
        i: int,
    ) -> Seq<GpuOp> {
        if p.render_programs@[i] is Some {
            seq![
                GpuOp::Draw(
                    Draw {
                        pass: Pass::CustomRender {
                            index: i as usize,
                            pass_count: p.render_passes@.len() as usize,
                            output: f.pass_sizes@[i],
                            input: Blur::origin_size(f, i),
                            geo_size: o.geo_size,
                            corner_radius: o.corner_radius,
                            window_screen_rect: o.window_screen_rect,
                        },
                        target: self.custom_textures@[i].id,
                        viewport: f.pass_sizes@[i],
                        unit0: Some(
                            Binding {
                                texture: self.render_origin(f, i),
                                sampling: Sampling::Clamped(Filter::Linear),
                            },
                        ),
                        unit1: Some(Binding { texture: mask, sampling: Sampling::Keep }),
                        unit2: None,
                        channels: Channels::All,
                    },
                ),
            ]
        } else {
            seq![]
        }
    }

    /// One render pass. `offset` is the offset of the options in single precision.
    pub open spec fn render_pass_ops(
        &self,
        f: &CustomFrame,
        p: &CustomBlurProgram,
        o: &BlurOptions,
        offset: F32Bits,
        mask: u32,
        i: int,
    ) -> Seq<GpuOp> {
        match p.render_passes@[i] {
            RenderPassStep::DualKawaseBlur { passes, offset: own } => dual_kawase_ops(
                self.textures@.take(step_passes(passes, o) as int + 1),
                self.render_origin(f, i),
                self.custom_textures@[i].id,
                step_passes(passes, o),
                match own {
                    Some(own) => own,
                    None => offset,
                },
                mask,
            ),
            RenderPassStep::Custom { .. } => self.custom_render_ops(f, p, o, mask, i),
        }
    }

    /// The first render passes.
    pub open spec fn render_passes_ops(
        &self,
        f: &CustomFrame,
        p: &CustomBlurProgram,
        o: &BlurOptions,
        offset: F32Bits,
        mask: u32,
        n: nat,
    ) -> Seq<GpuOp>
        decreases n,
    {
        if n == 0 {
            seq![]
        } else {
            self.render_passes_ops(f, p, o, offset, mask, (n - 1) as nat) + self.render_pass_ops(
                f,
                p,
                o,
                offset,
                mask,
                n - 1,
            )
        }
    }

    /// Whether the output is clipped: the mask is exact, and the program for it is
    /// there.
    pub open spec fn clipped(&self, f: &CustomFrame, p: &CustomBlurProgram) -> bool {
        f.clip && self.exact_mask(p) && self.programs.output_mask
    }

    /// The output multiplied by the mask.
    pub open spec fn clip_op(&self, f: &CustomFrame, mask: u32) -> GpuOp {
        GpuOp::Draw(
            Draw {
                pass: Pass::OutputMask,
                target: self.masked_output.unwrap().id,
                viewport: f.pass_sizes@.last(),
                unit0: Some(
                    Binding {
                        texture: self.custom_textures@.last().id,
                        sampling: Sampling::Clamped(Filter::Linear),
                    },
                ),
                unit1: Some(
                    Binding { texture: mask, sampling: Sampling::Clamped(Filter::Nearest) },
                ),
                unit2: None,
                channels: Channels::All,
            },
        )
    }

    /// All operations of a frame: the mask, the render passes, and the clipping.
    pub open spec fn frame_ops(
        &self,
        f: &CustomFrame,
        p: &CustomBlurProgram,
        o: &BlurOptions,
        offset: F32Bits,
    ) -> Seq<GpuOp> {
        let mask = self.mask_id(self.ends_in_b(f, p));
        self.mask_ops(f, p, o) + self.render_passes_ops(
            f,
            p,
            o,
            offset,
            mask,
            p.render_passes@.len(),
        ) + if self.clipped(f, p) {
            seq![self.clip_op(f, mask)]
        } else {
            seq![]
        }
    }

    /// What a frame produces.
    pub open spec fn frame_output(&self, f: &CustomFrame, p: &CustomBlurProgram) -> BlurOutput {
        if self.clipped(f, p) {
            BlurOutput { texture: self.masked_output.unwrap(), subregion_clipped: true }
        } else {
            BlurOutput { texture: self.custom_textures@.last(), subregion_clipped: false }
        }
    }

    fn push_render_pass(
        &self,
        ops: &mut Vec<GpuOp>,
        f: &CustomFrame,
        p: &CustomBlurProgram,
        o: &BlurOptions,
        offset: F32Bits,
        mask: u32,
        i: usize,
    )
        requires
            self.ready(f, p, o),
            i < p.render_passes@.len(),
        ensures
            final(ops)@ == old(ops)@ + self.render_pass_ops(f, p, o, offset, mask, i as int),
    {
        let origin: u32 = if i == 0 { f.source.id } else { self.custom_textures[i - 1].id };
        let input: Extent = if i == 0 { f.source.size } else { f.pass_sizes[i - 1] };
        let output: Extent = f.pass_sizes[i];
        let target: u32 = self.custom_textures[i].id;
        match &p.render_passes[i] {
            RenderPassStep::DualKawaseBlur { passes, offset: own } => {
                proof {
                    lemma_most_passes(p.render_passes@, o, i as int);
                }
                let n: usize = compute_step_passes(*passes, o);
                let used: F32Bits = match own {
                    Some(own) => *own,
                    None => offset,
                };
                run_dual_kawase_blur(ops, &self.textures, origin, target, n, used, mask);
            },
            RenderPassStep::Custom { .. } => {
                if p.render_programs[i].is_some() {
                    ops.push(
                        GpuOp::Draw(
                            Draw {
                                pass: Pass::CustomRender {
                                    index: i,
                                    pass_count: p.render_passes.len(),
                                    output,
                                    input,
                                    geo_size: o.geo_size,
                                    corner_radius: o.corner_radius,
                                    window_screen_rect: o.window_screen_rect,
                                },
                                target,
                                viewport: output,
                                unit0: Some(
                                    Binding {
                                        texture: origin,
                                        sampling: Sampling::Clamped(Filter::Linear),
                                    },
                                ),
                                unit1: Some(Binding { texture: mask, sampling: Sampling::Keep }),
                                unit2: None,
                                channels: Channels::All,
                            },
                        ),
                    );
                }
            },
        }
        assert(ops@ =~= old(ops)@ + self.render_pass_ops(f, p, o, offset, mask, i as int));
    }

    /// Whether all that a frame needs has been supplied. The programs of the
    /// pipeline are taken to be those that its compilation gave it.
    pub fn is_ready(&self, f: &CustomFrame, p: &CustomBlurProgram, o: &BlurOptions) -> (r: bool)
        requires
            p.wf(),
        ensures
            r == self.ready(f, p, o),
    {
        let count: usize = p.render_passes.len();
        let needed: usize = max_kawase_passes(p, o);
        if count == 0 || f.pass_sizes.len() != count || self.custom_textures.len() != count {
            return false;
        }
        if o.subregion_rects.rects.len() > MAX_SUBREGIONS || self.rects_px.len()
            != o.subregion_rects.rects.len() {
            return false;
        }
        self.next_output_texture(f).is_none() && self.find_missing_mask(f, o).is_none() && (needed
            == 0 || self.textures.len() == needed + 1)
    }

    /// Render a frame through a shader pipeline. `offset` is the offset of the
    /// options in single precision.
    pub fn render_custom(
        &mut self,
        f: &CustomFrame,
        p: &CustomBlurProgram,
        o: &BlurOptions,
        offset: F32Bits,
    ) -> (result: (Vec<GpuOp>, BlurOutput))
        requires
            old(self).wf(),
            f.wf(),
            old(self).ready(f, p, o),
        ensures
            result.0@ == old(self).frame_ops(f, p, o, offset),
            result.1 == old(self).frame_output(f, p),
            *final(self) == old(self).after_mask(f, p, o),
            final(self).wf(),
    {
        let mut ops: Vec<GpuOp> = Vec::new();
        let in_b: bool = if self.is_mask_hit(f) {
            self.mask_in_b.unwrap()
        } else {
            p.mask_passes.len() % 2 == 1
        };
        let mask: u32 = if in_b { self.mask_b.unwrap().id } else { self.mask_a.unwrap().id };
        self.render_mask(&mut ops, f, p, o);
        let ghost masked = ops@;
        let mut i: usize = 0;
        assert(ops@ =~= masked + old(self).render_passes_ops(f, p, o, offset, mask, 0));
        while i < p.render_passes.len()
            invariant
                *self == old(self).after_mask(f, p, o),
                self.ready(f, p, o),
                i <= p.render_passes@.len(),
                ops@ == masked + old(self).render_passes_ops(f, p, o, offset, mask, i as nat),
            decreases p.render_passes@.len() - i,
        {
            self.push_render_pass(&mut ops, f, p, o, offset, mask, i);
            assert(self.render_pass_ops(f, p, o, offset, mask, i as int) == old(
                self,
            ).render_pass_ops(f, p, o, offset, mask, i as int));
            assert(ops@ =~= masked + old(self).render_passes_ops(
                f,
                p,
                o,
                offset,
                mask,
                (i + 1) as nat,
            ));
            i = i + 1;
        }
        let last: Texture = self.custom_textures[self.custom_textures.len() - 1];
        if f.clip && self.has_exact_mask(p) && self.programs.output_mask {
            let output: Texture = self.masked_output.unwrap();
            ops.push(
                GpuOp::Draw(
                    Draw {
                        pass: Pass::OutputMask,
                        target: output.id,
                        viewport: f.pass_sizes[f.pass_sizes.len() - 1],
                        unit0: Some(
                            Binding {
                                texture: last.id,
                                sampling: Sampling::Clamped(Filter::Linear),
                            },
                        ),
                        unit1: Some(
                            Binding { texture: mask, sampling: Sampling::Clamped(Filter::Nearest) },
                        ),
                        unit2: None,
                        channels: Channels::All,
                    },
                ),
            );
            assert(ops@ =~= old(self).frame_ops(f, p, o, offset));
            return (ops, BlurOutput { texture: output, subregion_clipped: true });
        }
        assert(ops@ =~= old(self).frame_ops(f, p, o, offset));
        (ops, BlurOutput { texture: last, subregion_clipped: false })
    }
}

} // verus!
