//! Laws of rendering through a shader pipeline.

use vstd::prelude::*;

use crate::blur::Blur;
use crate::blur_options::BlurOptions;
use crate::blur_program::CustomBlurProgram;
use crate::custom_blur::{MaskPassStep, RenderPassStep};
use crate::custom_render::{
    law_rects_room, lemma_most_passes, other_inputs, other_rects, other_size, rects_room,
    same_pair, same_quad, step_passes, CustomFrame, MaskTexture,
};
use crate::float_bits::F32Bits;
use crate::gpu::{
    lemma_free_of_feedback_concat, lemma_leaves_concat, plan_free_of_feedback, plan_leaves,
    plan_writes, GpuOp, Rect, Texture,
};
use crate::jfa::{
    encode_field_ops, field_distinct, law_region_mask_free_of_feedback,
    law_valid_field_is_only_placed,
};
use crate::kawase::{below_first, down_ops, dual_kawase_ops, law_kawase_free_of_feedback, up_ops};

verus! {

// ---------------------------------------------------------------------------
// Reuse of the mask
// ---------------------------------------------------------------------------

/// None of the components is not a number.
pub open spec fn all_numbers(o: &BlurOptions) -> bool {
    &&& !o.geo_size.x.is_nan() && !o.geo_size.y.is_nan()
    &&& !o.corner_radius.x.is_nan() && !o.corner_radius.y.is_nan()
    &&& !o.corner_radius.z.is_nan() && !o.corner_radius.w.is_nan()
}

/// A mask that was rendered once is reused: a later frame of the same size, with
/// the same subregions, geometry and pipeline, finds the mask of the earlier one
/// still right and draws no mask at all.
pub proof fn law_rendered_mask_is_reused(
    b: Blur,
    f: CustomFrame,
    later: CustomFrame,
    p: CustomBlurProgram,
    o: BlurOptions,
)
    requires
        all_numbers(&o),
        f.inputs_changed == other_inputs(b.mask_key, f.source, &p, &o),
        later.source.size == f.source.size,
        later.inputs_changed == other_inputs(
            b.after_mask(&f, &p, &o).mask_key,
            later.source,
            &p,
            &o,
        ),
        !later.masks_new,
    ensures
        b.after_mask(&f, &p, &o).mask_hit(&later),
        b.after_mask(&f, &p, &o).mask_ops(&later, &p, &o) == Seq::<GpuOp>::empty(),
        b.after_mask(&f, &p, &o).ends_in_b(&later, &p) == b.ends_in_b(&f, &p),
        b.after_mask(&f, &p, &o).after_mask(&later, &p, &o) == b.after_mask(&f, &p, &o),
{
}

/// A mask is not reused for anything else: with another list of subregions, size,
/// geometry or pipeline than it was rendered for, it is drawn anew.
pub proof fn law_other_mask_is_not_reused(
    b: Blur,
    f: CustomFrame,
    p: CustomBlurProgram,
    o: BlurOptions,
)
    requires
        f.inputs_changed == other_inputs(b.mask_key, f.source, &p, &o),
        b.mask_hit(&f),
    ensures
        b.mask_key matches Some(k) && k.rects == o.subregion_rects.id && k.size == f.source.size
            && same_pair(k.geo_size, o.geo_size) && same_quad(k.corner_radius, o.corner_radius)
            && k.pipeline == p.id,
{
}

/// The subregions are uploaded once per change: after a frame has drawn its mask, a
/// later one with the same list, size and texture uploads nothing, whatever else
/// has changed.
pub proof fn law_rects_are_uploaded_once_per_change(
    b: Blur,
    f: CustomFrame,
    later: CustomFrame,
    p: CustomBlurProgram,
    o: BlurOptions,
    later_options: BlurOptions,
)
    requires
        !b.mask_hit(&f),
        later.source.size == f.source.size,
        later_options.subregion_rects.id == o.subregion_rects.id,
        later.rects_changed == other_rects(b.after_mask(&f, &p, &o).mask_key, &later_options),
        later.size_changed == other_size(b.after_mask(&f, &p, &o).mask_key, later.source),
        !later.rects_texture_new,
    ensures
        b.after_mask(&f, &p, &o).upload_ops(&later) == Seq::<GpuOp>::empty(),
{
}

/// The texture is none that the render passes write.
pub open spec fn apart_from_outputs(b: &Blur, texture: u32) -> bool {
    &&& forall|i: int|
        0 <= i < b.custom_textures@.len() ==> (#[trigger] b.custom_textures@[i]).id != texture
    &&& forall|i: int| 0 <= i < b.textures@.len() ==> (#[trigger] b.textures@[i]).id != texture
    &&& b.masked_output matches Some(t) ==> t.id != texture
}

proof fn lemma_kawase_leaves(
    chain: Seq<Texture>,
    source: u32,
    output: u32,
    passes: nat,
    offset: F32Bits,
    mask: u32,
    texture: u32,
)
    requires
        passes < chain.len(),
        output != texture,
        forall|i: int| 0 <= i < chain.len() ==> (#[trigger] chain[i]).id != texture,
    ensures
        plan_leaves(dual_kawase_ops(chain, source, output, passes, offset, mask), texture),
{
    let down = down_ops(chain, source, passes, offset, Some(mask));
    let up = up_ops(chain, output, offset, Some(mask));
    let start = dual_kawase_ops(chain, source, output, passes, offset, mask).subrange(0, 1);
    lemma_leaves_concat(start, down, texture);
    lemma_leaves_concat(start + down, up, texture);
    assert(dual_kawase_ops(chain, source, output, passes, offset, mask) =~= start + down + up);
}

proof fn lemma_render_passes_leave(
    b: &Blur,
    f: &CustomFrame,
    p: &CustomBlurProgram,
    o: &BlurOptions,
    offset: F32Bits,
    mask: u32,
    texture: u32,
    n: nat,
)
    requires
        b.ready(f, p, o),
        apart_from_outputs(b, texture),
        n <= p.render_passes@.len(),
    ensures
        plan_leaves(b.render_passes_ops(f, p, o, offset, mask, n), texture),
    decreases n,
{
    if n > 0 {
        let i = n - 1;
        lemma_render_passes_leave(b, f, p, o, offset, mask, texture, i as nat);
        assert(b.custom_textures@[i].id != texture);
        match p.render_passes@[i] {
            RenderPassStep::DualKawaseBlur { passes, offset: own } => {
                lemma_most_passes(p.render_passes@, o, i);
                lemma_kawase_leaves(
                    b.textures@.take(step_passes(passes, o) as int + 1),
                    b.render_origin(f, i),
                    b.custom_textures@[i].id,
                    step_passes(passes, o),
                    match own {
                        Some(own) => own,
                        None => offset,
                    },
                    mask,
                    texture,
                );
            },
            _ => {},
        }
        lemma_leaves_concat(
            b.render_passes_ops(f, p, o, offset, mask, i as nat),
            b.render_pass_ops(f, p, o, offset, mask, i),
            texture,
        );
    }
}

/// A frame that reuses its mask touches nothing that the mask was made with: no
/// texture is written but the outputs of the render passes.
pub proof fn law_reused_mask_is_untouched(
    b: &Blur,
    f: &CustomFrame,
    p: &CustomBlurProgram,
    o: &BlurOptions,
    offset: F32Bits,
    texture: u32,
)
    requires
        b.ready(f, p, o),
        b.mask_hit(f),
        apart_from_outputs(b, texture),
    ensures
        plan_leaves(b.frame_ops(f, p, o, offset), texture),
{
    let mask = b.mask_id(b.ends_in_b(f, p));
    let passes = b.render_passes_ops(f, p, o, offset, mask, p.render_passes@.len());
    let clip = if b.clipped(f, p) {
        seq![b.clip_op(f, mask)]
    } else {
        seq![]
    };
    lemma_render_passes_leave(b, f, p, o, offset, mask, texture, p.render_passes@.len());
    assert(plan_leaves(clip, texture));
    lemma_leaves_concat(b.mask_ops(f, p, o), passes, texture);
    lemma_leaves_concat(b.mask_ops(f, p, o) + passes, clip, texture);
}

// ---------------------------------------------------------------------------
// Reuse of the encoded field
// ---------------------------------------------------------------------------

/// The encoded field survives a move of the box: as long as its textures, the size
/// of the box and the rectangles within it stay the same, it is valid wherever the
/// box goes, and only then.
pub proof fn law_field_survives_a_move(
    b: Blur,
    f: CustomFrame,
    moved: CustomFrame,
    dx: int,
    dy: int,
    count: nat,
    close: bool,
)
    requires
        f.bbox matches Some(r) && i32::MIN <= r.x + dx <= i32::MAX && i32::MIN <= r.y + dy
            <= i32::MAX,
        moved.bbox == Some(
            Rect {
                x: (f.bbox.unwrap().x + dx) as i32,
                y: (f.bbox.unwrap().y + dy) as i32,
                ..f.bbox.unwrap()
            },
        ),
        moved.field_new == f.field_new,
    ensures
        b.field_valid(&moved, count, close) == b.field_valid(&f, count, close),
{
}

/// A field is not valid before its textures have been there for a frame.
pub proof fn law_new_field_is_not_valid(b: Blur, f: CustomFrame, count: nat, close: bool)
    requires
        f.field_new,
    ensures
        !b.field_valid(&f, count, close),
{
}

proof fn lemma_region_pass_writes_field(
    b: &Blur,
    f: &CustomFrame,
    p: &CustomBlurProgram,
    o: &BlurOptions,
    i: int,
)
    requires
        0 <= i < p.mask_passes@.len(),
        p.mask_passes@[i] is RegionVectors,
        b.builds_field(f, p),
    ensures
        plan_writes(b.mask_pass_ops(f, p, o, i), b.jfa_textures.unwrap().encoded),
{
    let t = b.jfa_textures.unwrap();
    let r = b.region_mask(f, o, i);
    let built = encode_field_ops(&t, r);
    let ops = b.mask_pass_ops(f, p, o, i);
    assert(built.last().writes(t.encoded));
    assert(ops[1 + (built.len() - 1)] == built.last());
}

proof fn lemma_mask_pass_is_drawn(
    b: &Blur,
    f: &CustomFrame,
    p: &CustomBlurProgram,
    o: &BlurOptions,
    i: int,
    n: nat,
    texture: u32,
)
    requires
        0 <= i < n <= p.mask_passes@.len(),
        plan_writes(b.mask_pass_ops(f, p, o, i), texture),
    ensures
        plan_writes(b.mask_passes_ops(f, p, o, n), texture),
    decreases n,
{
    let before = b.mask_passes_ops(f, p, o, (n - 1) as nat);
    let last = b.mask_pass_ops(f, p, o, n - 1);
    let all = b.mask_passes_ops(f, p, o, n);
    if i == n - 1 {
        let k = choose|k: int| 0 <= k < last.len() && (#[trigger] last[k]).writes(texture);
        assert(all[before.len() + k] == last[k]);
    } else {
        lemma_mask_pass_is_drawn(b, f, p, o, i, (n - 1) as nat, texture);
        let k = choose|k: int| 0 <= k < before.len() && (#[trigger] before[k]).writes(texture);
        assert(all[k] == before[k]);
    }
}

/// An encoded field that was not built is not reused, and does not come to count by
/// being asked for: a frame that draws its mask makes it count only by building it,
/// with a plan that writes the encoded texture.
pub proof fn law_field_is_built_before_reuse(
    b: &Blur,
    f: &CustomFrame,
    p: &CustomBlurProgram,
    o: &BlurOptions,
    count: nat,
    close: bool,
)
    requires
        !b.field.built,
    ensures
        !b.field_valid(f, count, close),
        !b.field_kept(f, count, close),
        b.after_mask(f, p, o).field.built ==> b.jfa_textures is Some && plan_writes(
            b.mask_ops(f, p, o),
            b.jfa_textures.unwrap().encoded,
        ),
{
    if b.after_mask(f, p, o).field.built {
        let encoded = b.jfa_textures.unwrap().encoded;
        let i = choose|i: int|
            0 <= i < p.mask_passes@.len() && #[trigger] p.mask_passes@[i] is RegionVectors;
        lemma_region_pass_writes_field(b, f, p, o, i);
        lemma_mask_pass_is_drawn(b, f, p, o, i, p.mask_passes@.len(), encoded);
        let before = b.upload_ops(f) + b.start_ops(f, p, o);
        let passes = b.mask_passes_ops(f, p, o, p.mask_passes@.len());
        let k = choose|k: int| 0 <= k < passes.len() && (#[trigger] passes[k]).writes(encoded);
        assert(b.mask_ops(f, p, o)[before.len() + k] == passes[k]);
    }
}

proof fn lemma_mask_passes_leave_field(
    b: &Blur,
    f: &CustomFrame,
    p: &CustomBlurProgram,
    o: &BlurOptions,
    n: nat,
    texture: u32,
)
    requires
        f.field_hit,
        b.mask_id(false) != texture,
        b.mask_id(true) != texture,
        n <= p.mask_passes@.len(),
    ensures
        plan_leaves(b.mask_passes_ops(f, p, o, n), texture),
    decreases n,
{
    if n > 0 {
        let i = n - 1;
        lemma_mask_passes_leave_field(b, f, p, o, i as nat, texture);
        if p.mask_passes@[i] is RegionVectors && b.field_ready(f) {
            law_valid_field_is_only_placed(
                &b.jfa_textures.unwrap(),
                b.region_mask(f, o, i),
                b.rects_edges@,
                b.cleared_box(f, p, i),
                b.programs.jfa,
                texture,
            );
        }
        assert(plan_leaves(b.mask_pass_ops(f, p, o, i), texture));
        lemma_leaves_concat(
            b.mask_passes_ops(f, p, o, i as nat),
            b.mask_pass_ops(f, p, o, i),
            texture,
        );
    }
}

/// A frame that reuses the encoded field leaves it as it is, with all that it was
/// built from: the mask is drawn without writing any texture but the masks and that
/// of the subregions, and the field still counts afterwards.
pub proof fn law_reused_field_is_untouched(
    b: &Blur,
    f: &CustomFrame,
    p: &CustomBlurProgram,
    o: &BlurOptions,
    texture: u32,
)
    requires
        f.field_hit,
        b.field.built,
        b.mask_id(false) != texture,
        b.mask_id(true) != texture,
        b.rects_texture != Some(texture),
    ensures
        plan_leaves(b.mask_ops(f, p, o), texture),
        b.after_mask(f, p, o).field.built,
{
    let uploads = b.upload_ops(f);
    let starts = b.start_ops(f, p, o);
    let masks = b.mask_passes_ops(f, p, o, p.mask_passes@.len());
    lemma_mask_passes_leave_field(b, f, p, o, p.mask_passes@.len(), texture);
    assert(plan_leaves(uploads, texture));
    assert(plan_leaves(starts, texture));
    lemma_leaves_concat(uploads, starts, texture);
    lemma_leaves_concat(uploads + starts, masks, texture);
}

/// What the encoded field is cleared from before it is placed anew is the box in
/// which the last frame that drew a region mask placed it.
pub proof fn law_former_place_is_where_it_was_drawn(
    b: &Blur,
    f: &CustomFrame,
    p: &CustomBlurProgram,
    o: &BlurOptions,
)
    requires
        b.places_field(f, p),
    ensures
        f.bbox == Some(
            Rect {
                x: b.after_mask(f, p, o).field.bbox_x,
                y: b.after_mask(f, p, o).field.bbox_y,
                ..f.bbox.unwrap()
            },
        ),
{
}

// ---------------------------------------------------------------------------
// Mask passes
// ---------------------------------------------------------------------------

/// A first mask pass that draws a mask by itself gets no binary mask to start
/// from: neither of the mask textures is written before it.
pub proof fn law_vector_pass_starts_from_nothing(
    b: &Blur,
    f: &CustomFrame,
    p: &CustomBlurProgram,
    o: &BlurOptions,
)
    requires
        p.mask_passes@.len() > 0,
        p.mask_passes@[0] is WindowVectors || p.mask_passes@[0] is RegionVectors,
    ensures
        b.start_ops(f, p, o) == Seq::<GpuOp>::empty(),
{
}

/// A region pass without subregions within the source leaves a mask that is zero
/// everywhere: it clears the whole of its texture, and nothing else writes it
/// afterwards.
pub proof fn law_region_pass_without_subregions_clears(
    b: &Blur,
    f: &CustomFrame,
    p: &CustomBlurProgram,
    o: &BlurOptions,
)
    requires
        p.mask_passes@.len() > 0,
        p.mask_passes@.last() is RegionVectors,
        f.bbox is None,
        !b.mask_hit(f),
    ensures
        b.mask_ops(f, p, o).len() > 0,
        b.mask_ops(f, p, o).last() == (GpuOp::Clear {
            target: b.mask_id(b.ends_in_b(f, p)),
            region: None,
        }),
{
}

/// Each mask pass starts from the mask texture that the pass before it wrote, the
/// first from texture A, and the last writes the texture that the mask is taken
/// from.
pub proof fn law_mask_passes_take_turns(b: &Blur, f: &CustomFrame, p: &CustomBlurProgram, i: int)
    requires
        0 <= i < p.mask_passes@.len(),
        !b.mask_hit(f),
        b.mask_id(false) != b.mask_id(true),
    ensures
        b.pass_origin(0) == b.mask_id(false),
        i > 0 ==> b.pass_origin(i) == b.pass_target(i - 1),
        b.pass_target(i) != b.pass_origin(i),
        b.mask_id(b.ends_in_b(f, p)) == b.pass_target(p.mask_passes@.len() - 1),
{
}

/// A mask pass that draws over the encoded field.
pub open spec fn draws_over(b: &Blur, f: &CustomFrame, p: &CustomBlurProgram, i: int) -> bool {
    match p.mask_passes@[i] {
        MaskPassStep::WindowVectors => b.programs.window_mask,
        MaskPassStep::RegionVectors => !b.field_ready(f),
        MaskPassStep::Custom { .. } => true,
    }
}

/// A mask texture counts as the one that holds the encoded field only if, after the
/// last pass that drew something else to it, a region pass with subregions wrote it
/// again: with the field, or with nothing while the programs of the field are
/// missing.
pub proof fn law_owner_was_not_drawn_over(
    b: &Blur,
    f: &CustomFrame,
    p: &CustomBlurProgram,
    n: nat,
    i: int,
)
    requires
        0 <= i < n <= p.mask_passes@.len(),
        b.owner_after(f, p, n) == Some(b.pass_target(i)),
        draws_over(b, f, p, i),
    ensures
        exists|j: int|
            i < j < n && #[trigger] p.mask_passes@[j] is RegionVectors && b.pass_target(j)
                == b.pass_target(i) && b.field_ready(f),
    decreases n,
{
    let last = n - 1;
    if p.mask_passes@[last] is RegionVectors && b.field_ready(f) {
        assert(p.mask_passes@[last] is RegionVectors);
    } else if i < last {
        law_owner_was_not_drawn_over(b, f, p, last as nat, i);
    }
}

// ---------------------------------------------------------------------------
// Output
// ---------------------------------------------------------------------------

/// The output is said to be clipped only when there are subregions and the last
/// mask pass left exactly their mask, by a program that is there.
pub proof fn law_clipped_output_has_an_exact_mask(
    b: &Blur,
    f: &CustomFrame,
    p: &CustomBlurProgram,
    o: &BlurOptions,
)
    requires
        f.clip == Blur::clips_output(p.mask_passes@, o.subregion_rects.rects@.len() > 0),
        b.ready(f, p, o),
        b.frame_output(f, p).subregion_clipped,
    ensures
        o.subregion_rects.rects@.len() > 0,
        p.mask_passes@.len() == 0 ==> b.programs.binary,
        p.mask_passes@.len() > 0 ==> p.mask_passes@.last() is RegionVectors && b.programs.jfa,
        b.masked_output == Some(b.frame_output(f, p).texture),
{
}

/// The output of a frame has the size of its last render pass, and is what the
/// last operation wrote when it is clipped.
pub proof fn law_output_has_the_final_size(
    b: &Blur,
    f: &CustomFrame,
    p: &CustomBlurProgram,
    o: &BlurOptions,
    offset: F32Bits,
)
    requires
        b.ready(f, p, o),
        b.outputs_fit(f),
    ensures
        b.frame_output(f, p).texture.size == f.pass_sizes@.last(),
        b.clipped(f, p) ==> b.frame_ops(f, p, o, offset).last().writes(
            b.frame_output(f, p).texture.id,
        ),
{
    assert(b.custom_textures@[b.custom_textures@.len() - 1].size == f.pass_sizes@.last());
}

/// The room for subregions never shrinks.
pub proof fn law_rects_capacity_never_shrinks(b: &Blur, f: &CustomFrame, o: &BlurOptions)
    requires
        b.missing_mask(f, o) == Some(MaskTexture::Rects),
    ensures
        rects_room(o.subregion_rects.rects@.len() as int) > b.rects_capacity,
{
    law_rects_room(o.subregion_rects.rects@.len() as int);
}

// ---------------------------------------------------------------------------
// Feedback
// ---------------------------------------------------------------------------

/// No texture serves twice among those that make the mask.
pub open spec fn mask_distinct(b: &Blur, f: &CustomFrame, o: &BlurOptions) -> bool {
    &&& b.mask_id(false) != b.mask_id(true)
    &&& b.rects_texture matches Some(r) ==> r != b.mask_id(false) && r != b.mask_id(true)
    &&& b.field_ready(f) ==> forall|i: int|
        field_distinct(&b.jfa_textures.unwrap(), #[trigger] b.region_mask(f, o, i))
}

/// No texture serves twice among those of the render passes.
pub open spec fn outputs_distinct(b: &Blur, f: &CustomFrame) -> bool {
    let chain = b.textures@;
    let outputs = b.custom_textures@;
    &&& forall|i: int, j: int|
        0 <= i < j < chain.len() ==> (#[trigger] chain[i]).id != (#[trigger] chain[j]).id
    &&& forall|i: int, j: int|
        0 <= i < j < outputs.len() ==> (#[trigger] outputs[i]).id != (#[trigger] outputs[j]).id
    &&& !below_first(chain, f.source.id)
    &&& forall|i: int| #![trigger outputs[i]]
        0 <= i < outputs.len() ==> {
            &&& !below_first(chain, outputs[i].id)
            &&& outputs[i].id != f.source.id
            &&& outputs[i].id != b.mask_id(false)
            &&& outputs[i].id != b.mask_id(true)
            &&& b.masked_output matches Some(t) ==> outputs[i].id != t.id
        }
    &&& !below_first(chain, b.mask_id(false))
    &&& !below_first(chain, b.mask_id(true))
    &&& b.masked_output matches Some(t) ==> t.id != b.mask_id(false) && t.id != b.mask_id(true)
}

proof fn lemma_mask_passes_free_of_feedback(
    b: &Blur,
    f: &CustomFrame,
    p: &CustomBlurProgram,
    o: &BlurOptions,
    n: nat,
)
    requires
        b.wf(),
        mask_distinct(b, f, o),
        n <= p.mask_passes@.len(),
    ensures
        plan_free_of_feedback(b.mask_passes_ops(f, p, o, n)),
    decreases n,
{
    if n > 0 {
        let i = n - 1;
        lemma_mask_passes_free_of_feedback(b, f, p, o, i as nat);
        if p.mask_passes@[i] is RegionVectors && b.field_ready(f) {
            law_region_mask_free_of_feedback(
                &b.jfa_textures.unwrap(),
                b.region_mask(f, o, i),
                b.rects_edges@,
                f.field_hit,
                b.cleared_box(f, p, i),
                b.programs.jfa,
            );
        }
        lemma_free_of_feedback_concat(
            b.mask_passes_ops(f, p, o, i as nat),
            b.mask_pass_ops(f, p, o, i),
        );
    }
}

proof fn lemma_render_pass_free_of_feedback(
    b: &Blur,
    f: &CustomFrame,
    p: &CustomBlurProgram,
    o: &BlurOptions,
    offset: F32Bits,
    in_b: bool,
    i: int,
)
    requires
        b.ready(f, p, o),
        outputs_distinct(b, f),
        0 <= i < p.render_passes@.len(),
    ensures
        plan_free_of_feedback(b.render_pass_ops(f, p, o, offset, b.mask_id(in_b), i)),
{
    let mask = b.mask_id(in_b);
    let outputs = b.custom_textures@;
    assert(outputs[i].id != mask);
    assert(b.render_origin(f, i) != outputs[i].id) by {
        if i > 0 {
            assert(outputs[i - 1].id != outputs[i].id);
        }
    }
    match p.render_passes@[i] {
        RenderPassStep::DualKawaseBlur { passes, offset: own } => {
            let used = match own {
                Some(own) => own,
                None => offset,
            };
            let n = step_passes(passes, o);
            let chain = b.textures@.take(n as int + 1);
            let origin = b.render_origin(f, i);
            lemma_most_passes(p.render_passes@, o, i);
            assert forall|id: u32| !below_first(b.textures@, id) implies !#[trigger] below_first(
                chain,
                id,
            ) by {
                if below_first(chain, id) {
                    let k = choose|k: int| 1 <= k < chain.len() && (#[trigger] chain[k]).id == id;
                    assert(b.textures@[k].id == id);
                }
            }
            if i > 0 {
                assert(!below_first(chain, outputs[i - 1].id));
            }
            law_kawase_free_of_feedback(chain, origin, outputs[i].id, n, used, Some(mask));
            let all = dual_kawase_ops(chain, origin, outputs[i].id, n, used, mask);
            let start = all.subrange(0, 1);
            let down = down_ops(chain, origin, n, used, Some(mask));
            let up = up_ops(chain, outputs[i].id, used, Some(mask));
            lemma_free_of_feedback_concat(start, down);
            lemma_free_of_feedback_concat(start + down, up);
            assert(all =~= start + down + up);
        },
        _ => {},
    }
}

proof fn lemma_render_passes_free_of_feedback(
    b: &Blur,
    f: &CustomFrame,
    p: &CustomBlurProgram,
    o: &BlurOptions,
    offset: F32Bits,
    in_b: bool,
    n: nat,
)
    requires
        b.ready(f, p, o),
        outputs_distinct(b, f),
        n <= p.render_passes@.len(),
    ensures
        plan_free_of_feedback(b.render_passes_ops(f, p, o, offset, b.mask_id(in_b), n)),
    decreases n,
{
    if n > 0 {
        let i = n - 1;
        lemma_render_passes_free_of_feedback(b, f, p, o, offset, in_b, i as nat);
        lemma_render_pass_free_of_feedback(b, f, p, o, offset, in_b, i);
        lemma_free_of_feedback_concat(
            b.render_passes_ops(f, p, o, offset, b.mask_id(in_b), i as nat),
            b.render_pass_ops(f, p, o, offset, b.mask_id(in_b), i),
        );
    }
}

proof fn lemma_mask_ops_free_of_feedback(
    b: &Blur,
    f: &CustomFrame,
    p: &CustomBlurProgram,
    o: &BlurOptions,
)
    requires
        b.wf(),
        mask_distinct(b, f, o),
    ensures
        plan_free_of_feedback(b.mask_ops(f, p, o)),
{
    let uploads = b.upload_ops(f);
    let starts = b.start_ops(f, p, o);
    let masks = b.mask_passes_ops(f, p, o, p.mask_passes@.len());
    lemma_mask_passes_free_of_feedback(b, f, p, o, p.mask_passes@.len());
    assert(plan_free_of_feedback(uploads));
    assert(plan_free_of_feedback(starts));
    lemma_free_of_feedback_concat(uploads, starts);
    lemma_free_of_feedback_concat(uploads + starts, masks);
}

proof fn lemma_clip_free_of_feedback(
    b: &Blur,
    f: &CustomFrame,
    p: &CustomBlurProgram,
    o: &BlurOptions,
    in_b: bool,
)
    requires
        b.ready(f, p, o),
        outputs_distinct(b, f),
        b.clipped(f, p),
    ensures
        b.clip_op(f, b.mask_id(in_b)).free_of_feedback(),
{
    let outputs = b.custom_textures@;
    assert(outputs[outputs.len() - 1] == outputs.last());
}

/// No operation of a frame reads what it writes, as long as no texture serves
/// twice.
pub proof fn law_frame_free_of_feedback(
    b: &Blur,
    f: &CustomFrame,
    p: &CustomBlurProgram,
    o: &BlurOptions,
    offset: F32Bits,
)
    requires
        b.wf(),
        b.ready(f, p, o),
        mask_distinct(b, f, o),
        outputs_distinct(b, f),
    ensures
        plan_free_of_feedback(b.frame_ops(f, p, o, offset)),
{
    let in_b = b.ends_in_b(f, p);
    let mask = b.mask_id(in_b);
    let masks = b.mask_ops(f, p, o);
    let passes = b.render_passes_ops(f, p, o, offset, mask, p.render_passes@.len());
    let clip = if b.clipped(f, p) {
        seq![b.clip_op(f, mask)]
    } else {
        seq![]
    };
    lemma_mask_ops_free_of_feedback(b, f, p, o);
    lemma_render_passes_free_of_feedback(b, f, p, o, offset, in_b, p.render_passes@.len());
    assert(plan_free_of_feedback(clip)) by {
        if b.clipped(f, p) {
            lemma_clip_free_of_feedback(b, f, p, o, in_b);
        }
    }
    lemma_free_of_feedback_concat(masks, passes);
    lemma_free_of_feedback_concat(masks + passes, clip);
}

} // verus!
