//! Laws of a frame: what its mask passes and render passes read and write.

use vstd::prelude::*;

use crate::blur::{plain_blur_ops, Blur, MaskKey, Programs};
use crate::blur_options::BlurOptions;
use crate::blur_program::CustomBlurProgram;
use crate::custom_blur::{MaskPassStep, RenderPassStep};
use crate::custom_render::{
    field_request, has_region_vectors, has_window_vectors, is_field, law_rects_room,
    lemma_most_passes, most_passes, other_inputs, other_rects, other_size, region_box, sizes_fit,
    step_passes, BuiltinProgram, CustomFrame, MaskTexture,
};
use crate::float_bits::F32Bits;
use crate::gpu::{Binding, Extent, Filter, GpuOp, Pass, Rect, Sampling, Texture};
use crate::jfa::{
    binary_mask_ops, padded_box, region_mask_ops, JfaTextures, RegionMask, RegionSpan,
};
use crate::kawase::{down_op, down_ops, dual_kawase_ops, up_op, up_ops};

verus! {

// ---------------------------------------------------------------------------
// The render passes
// ---------------------------------------------------------------------------

/// The mask that a frame ends up with: that of the frame before if nothing has
/// changed, otherwise the one that the last mask pass leaves. The passes write texture
/// B and texture A in turn.
pub open spec fn mask_of_frame(b: &Blur, f: &CustomFrame, p: &CustomBlurProgram) -> u32 {
    let in_b = if !f.masks_new && !f.inputs_changed && b.mask_in_b is Some {
        b.mask_in_b.unwrap()
    } else {
        p.mask_passes@.len() % 2 == 1
    };
    if in_b {
        b.mask_b.unwrap().id
    } else {
        b.mask_a.unwrap().id
    }
}

/// Where a render pass begins in the plan of its frame.
pub open spec fn pass_begins(
    b: &Blur,
    f: &CustomFrame,
    p: &CustomBlurProgram,
    o: &BlurOptions,
    offset: F32Bits,
    i: int,
) -> int {
    (b.mask_ops(f, p, o).len() + b.render_passes_ops(
        f,
        p,
        o,
        offset,
        mask_of_frame(b, f, p),
        i as nat,
    ).len()) as int
}

/// The number of passes of a Kawase step: its own or that of the options, brought
/// between one and 31.
pub open spec fn kawase_rounds(own: Option<u8>, o: &BlurOptions) -> int {
    let wanted = match own {
        Some(n) => n,
        None => o.passes,
    };
    if wanted == 0 {
        1
    } else if wanted > 31 {
        31
    } else {
        wanted as int
    }
}

/// A draw reads, on its first unit, what the draw right before it wrote.
pub open spec fn reads_previous(plan: Seq<GpuOp>, k: int) -> bool {
    plan[k] matches GpuOp::Draw(d) && plan[k - 1] matches GpuOp::Draw(e) && d.unit0 matches Some(
        read,
    ) && read.texture == e.target
}

/// One draw of a Kawase blur, by its place: the first half goes down the chain, each
/// draw in the size of the texture that it writes, and the second half comes up again,
/// each draw in the size of the next larger texture.
pub open spec fn is_blur_draw(
    op: GpuOp,
    j: int,
    chain: Seq<Texture>,
    rounds: int,
    offset: F32Bits,
    mask: Option<u32>,
) -> bool {
    op matches GpuOp::Draw(d) && {
        let n = 2 * rounds - j;
        &&& d.channels is All
        &&& d.unit0 matches Some(read) && read.sampling == Sampling::Clamped(Filter::Linear)
        &&& mask matches Some(m) ==> (d.unit1 matches Some(bound) && bound.texture == m)
        &&& j < rounds ==> {
            &&& d.pass == (Pass::KawaseDown { offset, half_pixel: chain[j + 1].size })
            &&& d.target == chain[j + 1].id
            &&& d.viewport == chain[j + 1].size
        }
        &&& j >= rounds ==> {
            &&& d.pass == (Pass::KawaseUp { offset, half_pixel: chain[n].size })
            &&& d.viewport == chain[n - 1].size
            &&& n > 1 ==> d.target == chain[n - 1].id
        }
    }
}

/// A Kawase blur in a plan: its draws follow each other, the first reads the source,
/// each further one what the one before it wrote, and the last one writes the output.
pub open spec fn blurs_in_plan(
    plan: Seq<GpuOp>,
    begin: int,
    end: int,
    chain: Seq<Texture>,
    source: u32,
    output: u32,
    rounds: int,
    offset: F32Bits,
    mask: Option<u32>,
) -> bool {
    &&& end == begin + 2 * rounds
    &&& plan[begin] matches GpuOp::Draw(d) && d.unit0 matches Some(first) && first.texture == source
    &&& plan[end - 1] matches GpuOp::Draw(d) && d.target == output
    &&& forall|k: int| begin < k < end ==> #[trigger] reads_previous(plan, k)
    &&& forall|k: int|
        begin <= k < end ==> is_blur_draw(
            #[trigger] plan[k],
            k - begin,
            chain,
            rounds,
            offset,
            mask,
        )
}

proof fn lemma_blur_in_plan(
    chain: Seq<Texture>,
    source: u32,
    output: u32,
    rounds: int,
    offset: F32Bits,
    mask: Option<u32>,
)
    requires
        1 <= rounds < chain.len(),
    ensures
        blurs_in_plan(
            down_ops(chain.take(rounds + 1), source, rounds as nat, offset, mask) + up_ops(
                chain.take(rounds + 1),
                output,
                offset,
                mask,
            ),
            0,
            2 * rounds,
            chain,
            source,
            output,
            rounds,
            offset,
            mask,
        ),
{
    let used = chain.take(rounds + 1);
    let down = down_ops(used, source, rounds as nat, offset, mask);
    let up = up_ops(used, output, offset, mask);
    let plan = down + up;
    assert forall|k: int| 0 <= k < rounds implies plan[k] == down_op(used, source, offset, mask, k) by {
    }
    assert forall|k: int| rounds <= k < 2 * rounds implies plan[k] == up_op(
        used,
        output,
        offset,
        mask,
        k - rounds,
    ) by {}
    assert forall|k: int| 0 <= k <= rounds implies used[k] == chain[k] by {}
    assert forall|k: int| 0 <= k < 2 * rounds implies is_blur_draw(
        #[trigger] plan[k],
        k,
        chain,
        rounds,
        offset,
        mask,
    ) by {
        if k < rounds {
            assert(plan[k] == down_op(used, source, offset, mask, k));
        } else {
            assert(plan[k] == up_op(used, output, offset, mask, k - rounds));
        }
    }
    assert forall|k: int| 0 < k < 2 * rounds implies #[trigger] reads_previous(plan, k) by {
        if k < rounds {
            assert(plan[k] == down_op(used, source, offset, mask, k));
            assert(plan[k - 1] == down_op(used, source, offset, mask, k - 1));
        } else {
            assert(plan[k] == up_op(used, output, offset, mask, k - rounds));
            if k == rounds {
                assert(plan[k - 1] == down_op(used, source, offset, mask, k - 1));
            } else {
                assert(plan[k - 1] == up_op(used, output, offset, mask, k - 1 - rounds));
            }
        }
    }
    assert(plan[2 * rounds - 1] == up_op(used, output, offset, mask, rounds - 1));
    assert(plan[0] == down_op(used, source, offset, mask, 0));
}

/// A blur stays one as a part of a longer plan.
proof fn lemma_blur_moves(
    draws: Seq<GpuOp>,
    plan: Seq<GpuOp>,
    begin: int,
    chain: Seq<Texture>,
    source: u32,
    output: u32,
    rounds: int,
    offset: F32Bits,
    mask: Option<u32>,
)
    requires
        1 <= rounds,
        blurs_in_plan(draws, 0, 2 * rounds, chain, source, output, rounds, offset, mask),
        forall|k: int| 0 <= k < 2 * rounds ==> plan[begin + k] == #[trigger] draws[k],
    ensures
        blurs_in_plan(
            plan,
            begin,
            begin + 2 * rounds,
            chain,
            source,
            output,
            rounds,
            offset,
            mask,
        ),
{
    assert(plan[begin + 0] == draws[0]);
    assert(plan[begin + (2 * rounds - 1)] == draws[2 * rounds - 1]);
    assert forall|k: int| begin < k < begin + 2 * rounds implies #[trigger] reads_previous(
        plan,
        k,
    ) by {
        let j = k - begin;
        assert(reads_previous(draws, j));
        assert(plan[begin + j] == draws[j]);
        assert(plan[begin + (j - 1)] == draws[j - 1]);
    }
    assert forall|k: int| begin <= k < begin + 2 * rounds implies is_blur_draw(
        #[trigger] plan[k],
        k - begin,
        chain,
        rounds,
        offset,
        mask,
    ) by {
        let j = k - begin;
        assert(plan[begin + j] == draws[j]);
    }
}

proof fn lemma_passes_split(
    b: &Blur,
    f: &CustomFrame,
    p: &CustomBlurProgram,
    o: &BlurOptions,
    offset: F32Bits,
    mask: u32,
    i: int,
    n: nat,
)
    requires
        0 <= i < n,
    ensures
        ({
            let all = b.render_passes_ops(f, p, o, offset, mask, n);
            let before = b.render_passes_ops(f, p, o, offset, mask, i as nat);
            let one = b.render_pass_ops(f, p, o, offset, mask, i);
            let upto = b.render_passes_ops(f, p, o, offset, mask, (i + 1) as nat);
            &&& upto == before + one
            &&& before.len() + one.len() <= all.len()
            &&& forall|k: int|
                0 <= k < one.len() ==> all[before.len() + k] == #[trigger] one[k]
        }),
    decreases n,
{
    let before = b.render_passes_ops(f, p, o, offset, mask, i as nat);
    let one = b.render_pass_ops(f, p, o, offset, mask, i);
    let all = b.render_passes_ops(f, p, o, offset, mask, n);
    if i < n - 1 {
        let less = b.render_passes_ops(f, p, o, offset, mask, (n - 1) as nat);
        lemma_passes_split(b, f, p, o, offset, mask, i, (n - 1) as nat);
        assert forall|k: int| 0 <= k < one.len() implies all[before.len() + k] == #[trigger] one[k] by {
            assert(less[before.len() + k] == one[k]);
        }
    }
}

proof fn lemma_pass_in_frame(
    b: &Blur,
    f: &CustomFrame,
    p: &CustomBlurProgram,
    o: &BlurOptions,
    offset: F32Bits,
    i: int,
)
    requires
        b.ready(f, p, o),
        0 <= i < p.render_passes@.len(),
    ensures
        ({
            let plan = b.frame_ops(f, p, o, offset);
            let one = b.render_pass_ops(f, p, o, offset, mask_of_frame(b, f, p), i);
            let begin = pass_begins(b, f, p, o, offset, i);
            &&& pass_begins(b, f, p, o, offset, i + 1) == begin + one.len()
            &&& 0 <= begin && begin + one.len() <= plan.len()
            &&& forall|k: int| 0 <= k < one.len() ==> plan[begin + k] == #[trigger] one[k]
        }),
{
    let mask = mask_of_frame(b, f, p);
    let n = p.render_passes@.len();
    let plan = b.frame_ops(f, p, o, offset);
    let masks = b.mask_ops(f, p, o);
    let all = b.render_passes_ops(f, p, o, offset, mask, n);
    let before = b.render_passes_ops(f, p, o, offset, mask, i as nat);
    let one = b.render_pass_ops(f, p, o, offset, mask, i);
    assert(mask == b.mask_id(b.ends_in_b(f, p)));
    lemma_passes_split(b, f, p, o, offset, mask, i, n);
    assert forall|k: int| 0 <= k < one.len() implies plan[masks.len() + before.len() + k]
        == #[trigger] one[k] by {
        assert(all[before.len() + k] == one[k]);
        assert(plan[masks.len() + (before.len() + k)] == all[before.len() + k]);
    }
}

/// The draw of a custom render pass.
pub open spec fn is_custom_draw(
    op: GpuOp,
    f: &CustomFrame,
    p: &CustomBlurProgram,
    o: &BlurOptions,
    source: u32,
    output: u32,
    mask: u32,
    i: int,
) -> bool {
    op matches GpuOp::Draw(d) && {
        &&& d.target == output
        &&& d.viewport == f.pass_sizes@[i]
        &&& d.channels is All
        &&& d.unit0 == Some(
            Binding { texture: source, sampling: Sampling::Clamped(Filter::Linear) },
        )
        &&& d.unit1 matches Some(bound) && bound.texture == mask
        &&& d.pass == (Pass::CustomRender {
            index: i as usize,
            pass_count: p.render_passes@.len() as usize,
            output: f.pass_sizes@[i],
            input: if i == 0 { f.source.size } else { f.pass_sizes@[i - 1] },
            geo_size: o.geo_size,
            corner_radius: o.corner_radius,
            window_screen_rect: o.window_screen_rect,
        })
    }
}

proof fn lemma_custom_pass(
    b: &Blur,
    f: &CustomFrame,
    p: &CustomBlurProgram,
    o: &BlurOptions,
    offset: F32Bits,
    i: int,
)
    requires
        b.ready(f, p, o),
        0 <= i < p.render_passes@.len(),
        p.render_passes@[i] is Custom,
    ensures
        b.render_pass_ops(f, p, o, offset, mask_of_frame(b, f, p), i).len() == 1,
        is_custom_draw(
            b.frame_ops(f, p, o, offset)[pass_begins(b, f, p, o, offset, i)],
            f,
            p,
            o,
            if i == 0 { f.source.id } else { b.custom_textures@[i - 1].id },
            b.custom_textures@[i].id,
            mask_of_frame(b, f, p),
            i,
        ),
{
    let one = b.render_pass_ops(f, p, o, offset, mask_of_frame(b, f, p), i);
    let begin = pass_begins(b, f, p, o, offset, i);
    lemma_pass_in_frame(b, f, p, o, offset, i);
    assert(p.render_programs@[i] is Some);
    assert(one.len() == 1);
    assert(b.frame_ops(f, p, o, offset)[begin + 0] == one[0]);
}

proof fn lemma_kawase_pass(
    b: &Blur,
    f: &CustomFrame,
    p: &CustomBlurProgram,
    o: &BlurOptions,
    offset: F32Bits,
    i: int,
)
    requires
        b.ready(f, p, o),
        0 <= i < p.render_passes@.len(),
        p.render_passes@[i] is DualKawaseBlur,
    ensures
        ({
            let rounds = kawase_rounds(p.render_passes@[i]->DualKawaseBlur_passes, o);
            let plan = b.frame_ops(f, p, o, offset);
            let begin = pass_begins(b, f, p, o, offset, i);
            &&& b.render_pass_ops(f, p, o, offset, mask_of_frame(b, f, p), i).len() == 1 + 2
                * rounds
            &&& plan[begin] == (GpuOp::Sample {
                texture: mask_of_frame(b, f, p),
                sampling: Sampling::Clamped(Filter::Linear),
            })
            &&& 1 <= rounds < b.textures@.len()
            &&& blurs_in_plan(
                plan,
                begin + 1,
                begin + 1 + 2 * rounds,
                b.textures@,
                if i == 0 { f.source.id } else { b.custom_textures@[i - 1].id },
                b.custom_textures@[i].id,
                rounds,
                match p.render_passes@[i]->DualKawaseBlur_offset {
                    Some(own) => own,
                    None => offset,
                },
                Some(mask_of_frame(b, f, p)),
            )
        }),
{
    let passes = p.render_passes@[i]->DualKawaseBlur_passes;
    let used = match p.render_passes@[i]->DualKawaseBlur_offset {
        Some(own) => own,
        None => offset,
    };
    let plan = b.frame_ops(f, p, o, offset);
    let begin = pass_begins(b, f, p, o, offset, i);
    let mask = mask_of_frame(b, f, p);
    let one = b.render_pass_ops(f, p, o, offset, mask, i);
    let source = if i == 0 { f.source.id } else { b.custom_textures@[i - 1].id };
    let output = b.custom_textures@[i].id;
    let rounds = kawase_rounds(passes, o);
    lemma_pass_in_frame(b, f, p, o, offset, i);
    lemma_most_passes(p.render_passes@, o, i);
    assert(rounds == step_passes(passes, o));
    lemma_blur_in_plan(b.textures@, source, output, rounds, used, Some(mask));
    let chain = b.textures@.take(rounds + 1);
    let draws = down_ops(chain, source, rounds as nat, used, Some(mask)) + up_ops(
        chain,
        output,
        used,
        Some(mask),
    );
    assert(one == dual_kawase_ops(chain, source, output, rounds as nat, used, mask));
    assert(one.len() == 1 + 2 * rounds);
    assert(plan[begin + 0] == one[0]);
    assert forall|k: int| 0 <= k < 2 * rounds implies plan[begin + 1 + k] == #[trigger] draws[k] by {
        assert(one[k + 1] == draws[k]);
        assert(plan[begin + (k + 1)] == one[k + 1]);
    }
    lemma_blur_moves(draws, plan, begin + 1, b.textures@, source, output, rounds, used, Some(mask));
}

/// The render passes of a frame are chained: the first reads the source, each further
/// one the texture that the pass before it wrote, and each writes a texture of its
/// own. A custom pass is one draw, over the whole of its output; a Kawase blur goes
/// down and up the chain as often as its own passes say, or those of the options, with
/// its own offset or that of the options. All of them are offered the mask.
pub proof fn law_render_passes_are_chained(
    b: &Blur,
    f: &CustomFrame,
    p: &CustomBlurProgram,
    o: &BlurOptions,
    offset: F32Bits,
    i: int,
)
    requires
        b.ready(f, p, o),
        0 <= i < p.render_passes@.len(),
    ensures
        ({
            let plan = b.frame_ops(f, p, o, offset);
            let begin = pass_begins(b, f, p, o, offset, i);
            let end = pass_begins(b, f, p, o, offset, i + 1);
            let source = if i == 0 { f.source.id } else { b.custom_textures@[i - 1].id };
            let output = b.custom_textures@[i].id;
            let mask = mask_of_frame(b, f, p);
            &&& 0 <= begin < end <= plan.len()
            &&& i == p.render_passes@.len() - 1 ==> end == plan.len() || end == plan.len() - 1
            &&& match p.render_passes@[i] {
                RenderPassStep::Custom { .. } => {
                    &&& end == begin + 1
                    &&& is_custom_draw(plan[begin], f, p, o, source, output, mask, i)
                },
                RenderPassStep::DualKawaseBlur { passes, offset: own } => {
                    &&& plan[begin] == (GpuOp::Sample {
                        texture: mask,
                        sampling: Sampling::Clamped(Filter::Linear),
                    })
                    &&& kawase_rounds(passes, o) < b.textures@.len()
                    &&& blurs_in_plan(
                        plan,
                        begin + 1,
                        end,
                        b.textures@,
                        source,
                        output,
                        kawase_rounds(passes, o),
                        match own {
                            Some(own) => own,
                            None => offset,
                        },
                        Some(mask),
                    )
                },
            }
        }),
{
    lemma_pass_in_frame(b, f, p, o, offset, i);
    match p.render_passes@[i] {
        RenderPassStep::Custom { .. } => {
            lemma_custom_pass(b, f, p, o, offset, i);
        },
        RenderPassStep::DualKawaseBlur { passes, offset: own } => {
            lemma_kawase_pass(b, f, p, o, offset, i);
        },
    }
    if i == p.render_passes@.len() - 1 {
        let mask = mask_of_frame(b, f, p);
        assert(mask == b.mask_id(b.ends_in_b(f, p)));
        assert((i + 1) as nat == p.render_passes@.len());
    }
}

/// A plain Kawase blur goes from the source down the chain and up to the first texture
/// of the chain, and does nothing else; the output is that texture.
pub proof fn law_plain_blur_is_chained(
    textures: Seq<Texture>,
    source: u32,
    rounds: int,
    offset: F32Bits,
)
    requires
        1 <= rounds,
        textures.len() == rounds + 1,
    ensures
        plain_blur_ops(textures, source, rounds as nat, offset).len() == 2 * rounds,
        blurs_in_plan(
            plain_blur_ops(textures, source, rounds as nat, offset),
            0,
            2 * rounds,
            textures,
            source,
            textures[0].id,
            rounds,
            offset,
            None,
        ),
{
    assert(textures.take(rounds + 1) =~= textures);
    lemma_blur_in_plan(textures, source, textures[0].id, rounds, offset, None);
}

// ---------------------------------------------------------------------------
// The output
// ---------------------------------------------------------------------------

/// The output of a frame: it is clipped exactly when the subregions are given, the
/// mask is theirs, and the programs for it are there. Then the last draw multiplies the
/// output of the last render pass by the mask, into a texture of its own; otherwise
/// the output is that of the last render pass, and nothing follows it.
pub proof fn law_output_is_clipped_by_the_mask(
    b: &Blur,
    f: &CustomFrame,
    p: &CustomBlurProgram,
    o: &BlurOptions,
    offset: F32Bits,
)
    requires
        b.ready(f, p, o),
    ensures
        ({
            let plan = b.frame_ops(f, p, o, offset);
            let n = p.render_passes@.len() as int;
            let end = pass_begins(b, f, p, o, offset, n);
            let output = b.frame_output(f, p);
            let clipped = f.clip && b.programs.output_mask && (if p.mask_passes@.len() == 0 {
                b.programs.binary
            } else {
                p.mask_passes@[p.mask_passes@.len() - 1] is RegionVectors && b.programs.jfa
            });
            &&& output.subregion_clipped == clipped
            &&& clipped ==> {
                &&& b.masked_output == Some(output.texture)
                &&& plan.len() == end + 1
                &&& plan[end] matches GpuOp::Draw(d) && {
                    &&& d.pass is OutputMask
                    &&& d.target == output.texture.id
                    &&& d.viewport == f.pass_sizes@[n - 1]
                    &&& d.channels is All
                    &&& d.unit0 == Some(
                        Binding {
                            texture: b.custom_textures@[n - 1].id,
                            sampling: Sampling::Clamped(Filter::Linear),
                        },
                    )
                    &&& d.unit1 == Some(
                        Binding {
                            texture: mask_of_frame(b, f, p),
                            sampling: Sampling::Clamped(Filter::Nearest),
                        },
                    )
                }
            }
            &&& !clipped ==> output.texture == b.custom_textures@[n - 1] && plan.len() == end
        }),
{
    let mask = mask_of_frame(b, f, p);
    assert(mask == b.mask_id(b.ends_in_b(f, p)));
    assert(b.missing_output(f) is None);
}

/// The output of a shader pipeline can be clipped when there are subregions, and the
/// last mask pass, if there is any, is the region mask.
pub proof fn law_what_can_be_clipped(mask_passes: Seq<MaskPassStep>, has_subregions: bool)
    ensures
        Blur::clips_output(mask_passes, has_subregions) <==> has_subregions && (mask_passes.len()
            == 0 || mask_passes[mask_passes.len() - 1] is RegionVectors),
{
}

// ---------------------------------------------------------------------------
// The mask passes
// ---------------------------------------------------------------------------

/// The rendered mask is still right for the frame.
pub open spec fn mask_is_kept(b: &Blur, f: &CustomFrame) -> bool {
    !f.masks_new && !f.inputs_changed && b.mask_in_b is Some
}

/// Where a mask pass begins in the plan of its frame.
pub open spec fn mask_begins(
    b: &Blur,
    f: &CustomFrame,
    p: &CustomBlurProgram,
    o: &BlurOptions,
    i: int,
) -> int {
    (b.upload_ops(f).len() + b.start_ops(f, p, o).len() + b.mask_passes_ops(
        f,
        p,
        o,
        i as nat,
    ).len()) as int
}

proof fn lemma_masks_split(
    b: &Blur,
    f: &CustomFrame,
    p: &CustomBlurProgram,
    o: &BlurOptions,
    i: int,
    n: nat,
)
    requires
        0 <= i < n,
    ensures
        ({
            let all = b.mask_passes_ops(f, p, o, n);
            let before = b.mask_passes_ops(f, p, o, i as nat);
            let one = b.mask_pass_ops(f, p, o, i);
            let upto = b.mask_passes_ops(f, p, o, (i + 1) as nat);
            &&& upto == before + one
            &&& before.len() + one.len() <= all.len()
            &&& forall|k: int|
                0 <= k < one.len() ==> all[before.len() + k] == #[trigger] one[k]
        }),
    decreases n,
{
    let before = b.mask_passes_ops(f, p, o, i as nat);
    let one = b.mask_pass_ops(f, p, o, i);
    let all = b.mask_passes_ops(f, p, o, n);
    if i < n - 1 {
        let less = b.mask_passes_ops(f, p, o, (n - 1) as nat);
        lemma_masks_split(b, f, p, o, i, (n - 1) as nat);
        assert forall|k: int| 0 <= k < one.len() implies all[before.len() + k] == #[trigger] one[k] by {
            assert(less[before.len() + k] == one[k]);
        }
    }
}

proof fn lemma_mask_in_frame(
    b: &Blur,
    f: &CustomFrame,
    p: &CustomBlurProgram,
    o: &BlurOptions,
    offset: F32Bits,
    i: int,
)
    requires
        !mask_is_kept(b, f),
        0 <= i < p.mask_passes@.len(),
    ensures
        ({
            let plan = b.frame_ops(f, p, o, offset);
            let one = b.mask_pass_ops(f, p, o, i);
            let begin = mask_begins(b, f, p, o, i);
            &&& mask_begins(b, f, p, o, i + 1) == begin + one.len()
            &&& 0 <= begin && begin + one.len() <= b.mask_ops(f, p, o).len()
            &&& b.mask_ops(f, p, o).len() <= plan.len()
            &&& forall|k: int| 0 <= k < one.len() ==> plan[begin + k] == #[trigger] one[k]
            &&& plan.subrange(begin, begin + one.len()) =~= one
        }),
{
    let plan = b.frame_ops(f, p, o, offset);
    let masks = b.mask_ops(f, p, o);
    let first = b.upload_ops(f) + b.start_ops(f, p, o);
    let n = p.mask_passes@.len();
    let all = b.mask_passes_ops(f, p, o, n);
    let before = b.mask_passes_ops(f, p, o, i as nat);
    let one = b.mask_pass_ops(f, p, o, i);
    lemma_masks_split(b, f, p, o, i, n);
    assert(masks == first + all);
    assert forall|k: int| 0 <= k < one.len() implies plan[first.len() + before.len() + k]
        == #[trigger] one[k] by {
        assert(all[before.len() + k] == one[k]);
        assert(masks[first.len() + (before.len() + k)] == all[before.len() + k]);
        assert(plan[first.len() + (before.len() + k)] == masks[first.len() + (before.len() + k)]);
    }
    let begin = mask_begins(b, f, p, o, i);
    assert forall|k: int| 0 <= k < one.len() implies plan.subrange(
        begin,
        begin + one.len(),
    )[k] == one[k] by {
        assert(plan[begin + k] == one[k]);
    }
}

/// The mask passes of a frame take turns: the first writes texture B, the next texture
/// A, and so on, and each starts from the texture that it does not write. A custom pass
/// is one draw that reads the mask so far and the subregions; a window pass draws the
/// geometry of the window, if its program is there; a region pass draws the region
/// mask of the subregions, or clears its texture if there are none within the source.
pub proof fn law_mask_passes_in_plan(
    b: &Blur,
    f: &CustomFrame,
    p: &CustomBlurProgram,
    o: &BlurOptions,
    offset: F32Bits,
    i: int,
)
    requires
        b.ready(f, p, o),
        !mask_is_kept(b, f),
        0 <= i < p.mask_passes@.len(),
    ensures
        ({
            let plan = b.frame_ops(f, p, o, offset);
            let begin = mask_begins(b, f, p, o, i);
            let end = mask_begins(b, f, p, o, i + 1);
            let target = if i % 2 == 0 { b.mask_b.unwrap().id } else { b.mask_a.unwrap().id };
            let origin = if i % 2 == 0 { b.mask_a.unwrap().id } else { b.mask_b.unwrap().id };
            let count = o.subregion_rects.rects@.len();
            &&& 0 <= begin <= end <= plan.len()
            &&& i == p.mask_passes@.len() - 1 ==> target == mask_of_frame(b, f, p) && end
                == pass_begins(b, f, p, o, offset, 0)
            &&& match p.mask_passes@[i] {
                MaskPassStep::WindowVectors => if b.programs.window_mask {
                    &&& end == begin + 2
                    &&& plan[begin] matches GpuOp::Draw(d) && {
                        &&& d.target == target
                        &&& d.viewport == f.source.size
                        &&& d.channels is All
                        &&& d.pass == (Pass::WindowMask {
                            geo_size: o.geo_size,
                            corner_radius: o.corner_radius,
                        })
                    }
                    &&& plan[begin + 1] == (GpuOp::Sample {
                        texture: target,
                        sampling: Sampling::Clamped(Filter::Linear),
                    })
                } else {
                    end == begin
                },
                MaskPassStep::Custom { .. } => {
                    &&& end == begin + 2
                    &&& plan[begin] matches GpuOp::Draw(d) && {
                        &&& d.target == target
                        &&& d.viewport == f.source.size
                        &&& d.channels is All
                        &&& d.unit0 == Some(
                            Binding { texture: origin, sampling: Sampling::Clamped(Filter::Linear) },
                        )
                        &&& count > 0 && b.rects_texture is Some ==> (d.unit1 matches Some(bound)
                            && bound.texture == b.rects_texture.unwrap())
                        &&& d.pass == (Pass::CustomMask {
                            index: i as usize,
                            subregions: count as i32,
                            output: f.source.size,
                            geo_size: o.geo_size,
                            corner_radius: o.corner_radius,
                        })
                    }
                    &&& plan[begin + 1] == (GpuOp::Sample {
                        texture: target,
                        sampling: Sampling::Clamped(Filter::Linear),
                    })
                },
                MaskPassStep::RegionVectors => if f.bbox is Some && b.jfa_textures is Some
                    && b.rects_texture is Some {
                    plan.subrange(begin, end) == region_mask_ops(
                        &b.jfa_textures.unwrap(),
                        RegionMask {
                            mask: target,
                            bbox: f.bbox.unwrap(),
                            source: f.source.size,
                            rects_texture: b.rects_texture.unwrap(),
                            instances: count as i32,
                        },
                        b.rects_edges@,
                        f.field_hit,
                        if i == 0 && b.field.owner == Some(target) {
                            f.field_previous
                        } else {
                            None
                        },
                        b.programs.jfa,
                    )
                } else {
                    &&& end == begin + 1
                    &&& plan[begin] == (GpuOp::Clear { target, region: None })
                },
            }
        }),
{
    let plan = b.frame_ops(f, p, o, offset);
    let begin = mask_begins(b, f, p, o, i);
    let one = b.mask_pass_ops(f, p, o, i);
    lemma_mask_in_frame(b, f, p, o, offset, i);
    if one.len() > 0 {
        assert(plan[begin + 0] == one[0]);
    }
    if one.len() > 1 {
        assert(plan[begin + 1] == one[1]);
    }
    match p.mask_passes@[i] {
        MaskPassStep::Custom { .. } => {
            assert(p.mask_programs@[i] is Some);
        },
        _ => {},
    }
    if i == p.mask_passes@.len() - 1 {
        assert((i + 1) as nat == p.mask_passes@.len());
        assert(b.render_passes_ops(f, p, o, offset, mask_of_frame(b, f, p), 0).len() == 0);
    }
}

/// What comes before the first mask pass: the subregions are uploaded if their
/// texture, their list or the size is new; and unless the first pass draws a mask by
/// itself, texture A gets the binary mask of the subregions over the whole source, or
/// is cleared if there are none or the program is not there. A mask that is kept takes
/// nothing at all.
pub proof fn law_mask_starts_from_the_subregions(
    b: &Blur,
    f: &CustomFrame,
    p: &CustomBlurProgram,
    o: &BlurOptions,
    offset: F32Bits,
)
    requires
        b.ready(f, p, o),
    ensures
        ({
            let plan = b.frame_ops(f, p, o, offset);
            let a = b.mask_a.unwrap().id;
            let count = o.subregion_rects.rects@.len();
            let uploads = (f.rects_texture_new || f.rects_changed || f.size_changed)
                && b.rects_texture is Some && count > 0;
            let from = if uploads { 1int } else { 0 };
            let end = mask_begins(b, f, p, o, 0);
            let by_itself = p.mask_passes@.len() > 0 && (p.mask_passes@[0] is WindowVectors
                || p.mask_passes@[0] is RegionVectors);
            &&& mask_is_kept(b, f) ==> pass_begins(b, f, p, o, offset, 0) == 0
            &&& !mask_is_kept(b, f) ==> {
                &&& uploads ==> plan[0] == (GpuOp::Upload {
                    texture: b.rects_texture.unwrap(),
                    texels: count as i32,
                })
                &&& by_itself ==> end == from
                &&& !by_itself ==> {
                    &&& end >= from + 2
                    &&& plan[from] == (GpuOp::Clear { target: a, region: None })
                    &&& plan[end - 1] == (GpuOp::Sample {
                        texture: a,
                        sampling: Sampling::Clamped(Filter::Nearest),
                    })
                    &&& if count > 0 && b.rects_texture is Some && b.programs.binary {
                        plan.subrange(from + 1, end - 1) == binary_mask_ops(
                            a,
                            b.rects_texture.unwrap(),
                            count as i32,
                            Rect { x: 0, y: 0, w: f.source.size.w, h: f.source.size.h },
                        )
                    } else {
                        end == from + 2
                    }
                }
                &&& p.mask_passes@.len() == 0 ==> end == pass_begins(b, f, p, o, offset, 0)
            }
        }),
{
    let plan = b.frame_ops(f, p, o, offset);
    let uploads = b.upload_ops(f);
    let starts = b.start_ops(f, p, o);
    let count = o.subregion_rects.rects@.len();
    assert(b.rects_px@.len() == count);
    assert(b.render_passes_ops(f, p, o, offset, mask_of_frame(b, f, p), 0).len() == 0);
    assert(b.mask_passes_ops(f, p, o, 0).len() == 0);
    if !mask_is_kept(b, f) {
        let masks = b.mask_ops(f, p, o);
        let n = uploads.len() as int;
        assert forall|k: int| 0 <= k < starts.len() implies plan[n + k] == #[trigger] starts[k] by {
            assert((uploads + starts)[n + k] == starts[k]);
            assert(masks[n + k] == (uploads + starts)[n + k]);
            assert(plan[n + k] == masks[n + k]);
        }
        if n > 0 {
            assert((uploads + starts)[0] == uploads[0]);
            assert(masks[0] == (uploads + starts)[0]);
            assert(plan[0] == masks[0]);
        }
        if starts.len() > 0 {
            assert(plan[n + 0] == starts[0]);
            assert(plan[n + (starts.len() - 1)] == starts[starts.len() - 1]);
            if count > 0 && b.rects_texture is Some && b.programs.binary {
                let binary = binary_mask_ops(
                    b.mask_a.unwrap().id,
                    b.rects_texture.unwrap(),
                    count as i32,
                    Rect { x: 0, y: 0, w: f.source.size.w, h: f.source.size.h },
                );
                assert(starts.len() == binary.len() + 2);
                assert forall|k: int| 0 <= k < binary.len() implies plan[n + 1 + k]
                    == #[trigger] binary[k] by {
                    assert(starts[k + 1] == binary[k]);
                    assert(plan[n + (k + 1)] == starts[k + 1]);
                }
                assert(plan.subrange(n + 1, n + 1 + binary.len()) =~= binary);
            }
        }
    }
}

// ---------------------------------------------------------------------------
// What a frame leaves behind
// ---------------------------------------------------------------------------

/// The bit patterns stand for the same number: neither is none, and they are the same
/// or zeros of either sign.
pub open spec fn equal_numbers(a: F32Bits, b: F32Bits) -> bool {
    &&& a.bits as int % 0x8000_0000 <= 0x7f80_0000
    &&& b.bits as int % 0x8000_0000 <= 0x7f80_0000
    &&& a.bits == b.bits || (a.bits as int % 0x8000_0000 == 0 && b.bits as int % 0x8000_0000 == 0)
}

/// The comparison of numbers by their bit patterns, and what counts as positive.
pub proof fn law_numbers_by_their_bits(a: F32Bits, b: F32Bits)
    ensures
        a.same_number(b) <==> equal_numbers(a, b),
        a.above_zero() <==> 0 < a.bits <= 0x7f80_0000,
{
}

/// A rendered mask is right for a frame exactly when it was rendered for the same list
/// of subregions, the same size, the same geometry and the same pipeline.
pub proof fn law_what_a_mask_depends_on(
    key: Option<MaskKey>,
    source: Texture,
    p: &CustomBlurProgram,
    o: &BlurOptions,
)
    ensures
        !other_inputs(key, source, p, o) <==> (key matches Some(k) && {
            &&& k.rects == o.subregion_rects.id
            &&& k.size == source.size
            &&& k.pipeline == p.id
            &&& equal_numbers(k.geo_size.x, o.geo_size.x)
            &&& equal_numbers(k.geo_size.y, o.geo_size.y)
            &&& equal_numbers(k.corner_radius.x, o.corner_radius.x)
            &&& equal_numbers(k.corner_radius.y, o.corner_radius.y)
            &&& equal_numbers(k.corner_radius.z, o.corner_radius.z)
            &&& equal_numbers(k.corner_radius.w, o.corner_radius.w)
        }),
        !other_rects(key, o) <==> (key matches Some(k) && k.rects == o.subregion_rects.id),
        !other_size(key, source) <==> (key matches Some(k) && k.size == source.size),
{
}

/// A frame that draws its mask notes what the mask depends on and where it is; one that
/// keeps its mask changes nothing. No frame changes a texture, a program or the list of
/// subregions.
pub proof fn law_frame_notes_its_mask(
    b: &Blur,
    f: &CustomFrame,
    p: &CustomBlurProgram,
    o: &BlurOptions,
)
    ensures
        ({
            let after = b.after_mask(f, p, o);
            &&& mask_is_kept(b, f) ==> after == *b
            &&& !mask_is_kept(b, f) ==> {
                &&& after.mask_in_b == Some(p.mask_passes@.len() % 2 == 1)
                &&& after.mask_key matches Some(k) && {
                    &&& k.rects == o.subregion_rects.id
                    &&& k.size == f.source.size
                    &&& k.geo_size == o.geo_size
                    &&& k.corner_radius == o.corner_radius
                    &&& k.pipeline == p.id
                }
            }
            &&& after.field.rects_local == b.field.rects_local
            &&& after.field.bbox_size == b.field.bbox_size
            &&& after == (Blur {
                mask_key: after.mask_key,
                mask_in_b: after.mask_in_b,
                field: after.field,
                ..*b
            })
        }),
{
}

/// The encoded field counts as built after a frame exactly when it did before, or when
/// the frame drew a region mask that could not reuse it, with the programs for it.
pub proof fn law_what_builds_the_field(
    b: &Blur,
    f: &CustomFrame,
    p: &CustomBlurProgram,
    o: &BlurOptions,
    i: int,
)
    requires
        !mask_is_kept(b, f),
        0 <= i < p.mask_passes@.len(),
        p.mask_passes@[i] is RegionVectors,
        f.bbox is Some,
        b.jfa_textures is Some,
        b.rects_texture is Some,
    ensures
        b.after_mask(f, p, o).field.built <==> b.field.built || (!f.field_hit && b.programs.jfa),
        b.after_mask(f, p, o).field.bbox_x == f.bbox.unwrap().x,
        b.after_mask(f, p, o).field.bbox_y == f.bbox.unwrap().y,
        i == p.mask_passes@.len() - 1 ==> b.after_mask(f, p, o).field.owner == Some(
            mask_of_frame(b, f, p),
        ),
{
    assert(has_region_vectors(p.mask_passes@));
}

/// The encoded field is reused exactly when it was built, its textures are not new, the
/// box has the size that was noted, and as many rectangles are where they were.
pub proof fn law_when_the_field_is_valid(b: &Blur, f: &CustomFrame, count: nat, close: bool)
    ensures
        b.field_valid(f, count, close) <==> {
            &&& b.field.built
            &&& !f.field_new
            &&& close
            &&& b.field.rects_local@.len() == count
            &&& f.bbox matches Some(r) && (b.field.bbox_size matches Some(size) && size.w == r.w
                && size.h == r.h)
        },
        b.field_kept(f, count, close) <==> b.field.built && !f.field_new && (b.field_valid(
            f,
            count,
            close,
        ) || mask_is_kept(b, f)),
{
}

// ---------------------------------------------------------------------------
// What a frame asks for
// ---------------------------------------------------------------------------

/// A frame lacks no output once each render pass has one, and the clipped output one of
/// the size of the last; until then it asks for them in that order, in those sizes.
pub proof fn law_outputs_are_asked_for_in_order(b: &Blur, f: &CustomFrame)
    requires
        f.pass_sizes@.len() > 0,
    ensures
        ({
            let have = b.custom_textures@.len() as int;
            let count = f.pass_sizes@.len() as int;
            match b.missing_output(f) {
                None => have >= count && (f.clip ==> b.masked_output is Some
                    && b.masked_output.unwrap().size == f.pass_sizes@[count - 1]),
                Some(request) => request.format is Rgba8 && if have < count {
                    request.size == f.pass_sizes@[have]
                } else {
                    request.size == f.pass_sizes@[count - 1] && f.clip && (b.masked_output matches
                        Some(t) ==> t.size != f.pass_sizes@[count - 1])
                },
            }
        }),
{
}

/// A frame lacks no mask texture once both masks have the size of the source, there is
/// room for all subregions, and the textures of the region mask have the size of its
/// box.
pub proof fn law_what_a_mask_needs(b: &Blur, f: &CustomFrame, o: &BlurOptions)
    ensures
        b.missing_mask(f, o) is None <==> {
            &&& b.mask_a matches Some(a) && a.size == f.source.size
            &&& b.mask_b matches Some(m) && m.size == f.source.size
            &&& o.subregion_rects.rects@.len() <= b.rects_capacity
            &&& f.bbox matches Some(r) ==> (b.jfa_textures matches Some(t) && t.size.w == r.w
                && t.size.h == r.h)
        },
        b.missing_mask(f, o) matches Some(missing) ==> (match missing {
            MaskTexture::A => !(b.mask_a matches Some(a) && a.size == f.source.size),
            MaskTexture::B => !(b.mask_b matches Some(m) && m.size == f.source.size),
            MaskTexture::Rects => o.subregion_rects.rects@.len() > b.rects_capacity,
            MaskTexture::Field => f.bbox matches Some(r) && !(b.jfa_textures matches Some(t)
                && t.size.w == r.w && t.size.h == r.h),
        }),
{
}

/// What is allocated for a mask texture: the masks in half floats and the size of the
/// source, the subregions in full floats in one row.
pub proof fn law_mask_textures_fit_their_use(f: &CustomFrame, o: &BlurOptions)
    requires
        o.subregion_rects.rects@.len() <= 0x4000_0000,
    ensures
        Blur::mask_request(f, o, MaskTexture::A).format is Rgba16F,
        Blur::mask_request(f, o, MaskTexture::B).format is Rgba16F,
        Blur::mask_request(f, o, MaskTexture::A).size == f.source.size,
        Blur::mask_request(f, o, MaskTexture::B).size == f.source.size,
        Blur::mask_request(f, o, MaskTexture::Rects).format is Rgba32F,
        Blur::mask_request(f, o, MaskTexture::Rects).size.h == 1,
        Blur::mask_request(f, o, MaskTexture::Rects).size.w >= o.subregion_rects.rects@.len(),
        Blur::mask_request(f, o, MaskTexture::Rects).size.w >= 16,
        Blur::mask_request(f, o, MaskTexture::Field) == field_request(
            f.bbox.unwrap(),
            f.levels@.len(),
            f.pending@.len(),
        ),
{
    law_rects_room(o.subregion_rects.rects@.len() as int);
}

/// Each texture of the region mask is what was allocated for its use: the solutions of
/// a level in one full float and its right-hand side in two half floats, in the size of
/// the level; the binary mask in one half float, and the flooding and the encoding in
/// four, in the size of the box. No texture that was allocated serves twice.
pub proof fn law_field_textures_fit_their_use(
    t: JfaTextures,
    bbox: Rect,
    ids: Seq<u32>,
    k: int,
)
    requires
        is_field(t, bbox, ids),
        0 <= k < t.pyramid@.len(),
    ensures
        ({
            let depth = t.pyramid@.len();
            let level = t.pyramid@[k];
            let n = 3 * depth as int;
            let request = |i: int| field_request(bbox, depth, i as nat);
            &&& level.u_a == ids[3 * k] && level.u_b == ids[3 * k + 1] && level.rhs == ids[3 * k
                + 2]
            &&& request(3 * k).format is R32F && request(3 * k).size == level.size
            &&& request(3 * k + 1).format is R32F && request(3 * k + 1).size == level.size
            &&& request(3 * k + 2).format is Rg16F && request(3 * k + 2).size == level.size
            &&& t.bin == ids[n] && request(n).format is R16F
            &&& t.jfa_a == ids[n + 1] && request(n + 1).format is Rgba16F
            &&& t.jfa_b == ids[n + 2] && request(n + 2).format is Rgba16F
            &&& t.encoded == ids[n + 3] && request(n + 3).format is Rgba16F
            &&& t.size.w == bbox.w && t.size.h == bbox.h
            &&& request(n).size == t.size && request(n + 1).size == t.size && request(n + 2).size
                == t.size && request(n + 3).size == t.size
            &&& ids.len() == n + 4
        }),
{
}

/// The room for Kawase passes is that of the longest blur among the render passes.
pub proof fn law_longest_blur_counts(steps: Seq<RenderPassStep>, o: &BlurOptions, i: int)
    ensures
        0 <= i < steps.len() ==> (steps[i] matches RenderPassStep::DualKawaseBlur { passes, .. }
            ==> kawase_rounds(passes, o) <= most_passes(steps, o)),
        most_passes(steps, o) == 0 || exists|k: int|
            0 <= k < steps.len() && (#[trigger] steps[k] matches RenderPassStep::DualKawaseBlur {
                passes,
                ..
            } && kawase_rounds(passes, o) == most_passes(steps, o)),
    decreases steps.len(),
{
    if 0 <= i < steps.len() {
        lemma_most_passes(steps, o, i);
    }
    if steps.len() > 0 {
        let front = steps.drop_last();
        law_longest_blur_counts(front, o, 0);
        if most_passes(steps, o) == most_passes(front, o) {
            if most_passes(front, o) > 0 {
                let k = choose|k: int|
                    0 <= k < front.len() && (
                    #[trigger] front[k] matches RenderPassStep::DualKawaseBlur { passes, .. }
                        && kawase_rounds(passes, o) == most_passes(front, o));
                assert(steps[k] == front[k]);
            }
        } else {
            assert(steps[steps.len() - 1] == steps.last());
        }
    }
}

/// A frame asks only for programs that it can use and that neither are there nor have
/// failed; and when it asks for none, each program that it can use is there or has
/// failed.
pub proof fn law_programs_are_asked_for_as_needed(
    b: &Blur,
    f: &CustomFrame,
    p: &CustomBlurProgram,
    o: &BlurOptions,
    failed: Programs,
    i: int,
)
    ensures
        ({
            let by_itself = p.mask_passes@.len() > 0 && (p.mask_passes@[0] is WindowVectors
                || p.mask_passes@[0] is RegionVectors);
            let binary = !mask_is_kept(b, f) && !by_itself && o.subregion_rects.rects@.len() > 0
                && b.rects_texture is Some;
            let exact = if p.mask_passes@.len() == 0 {
                b.programs.binary
            } else {
                p.mask_passes@[p.mask_passes@.len() - 1] is RegionVectors && b.programs.jfa
            };
            match b.missing_program(f, p, o, failed) {
                Some(BuiltinProgram::Binary) => binary && !b.programs.binary && !failed.binary,
                Some(BuiltinProgram::WindowMask) => {
                    &&& !b.programs.window_mask && !failed.window_mask && !mask_is_kept(b, f)
                    &&& exists|k: int|
                        0 <= k < p.mask_passes@.len() && #[trigger] p.mask_passes@[k] is WindowVectors
                },
                Some(BuiltinProgram::Jfa) => {
                    &&& !b.programs.jfa && !failed.jfa && !mask_is_kept(b, f) && !f.field_hit
                    &&& f.bbox is Some && b.jfa_textures is Some && b.rects_texture is Some
                    &&& exists|k: int|
                        0 <= k < p.mask_passes@.len() && #[trigger] p.mask_passes@[k] is RegionVectors
                },
                Some(BuiltinProgram::OutputMask) => {
                    &&& !b.programs.output_mask && !failed.output_mask
                    &&& f.clip && exact
                },
                None => {
                    &&& binary ==> b.programs.binary || failed.binary
                    &&& !mask_is_kept(b, f) && 0 <= i < p.mask_passes@.len()
                        && p.mask_passes@[i] is WindowVectors ==> b.programs.window_mask
                        || failed.window_mask
                    &&& !mask_is_kept(b, f) && 0 <= i < p.mask_passes@.len()
                        && p.mask_passes@[i] is RegionVectors && f.bbox is Some && b.jfa_textures is Some
                        && b.rects_texture is Some && !f.field_hit ==> b.programs.jfa || failed.jfa
                    &&& f.clip && exact ==> b.programs.output_mask || failed.output_mask
                },
            }
        }),
{
    if 0 <= i < p.mask_passes@.len() {
        assert(p.mask_passes@[i] is WindowVectors ==> has_window_vectors(p.mask_passes@));
        assert(p.mask_passes@[i] is RegionVectors ==> has_region_vectors(p.mask_passes@));
    }
}

/// A program that was compiled is there from then on, and one that was not has failed
/// for the frame; nothing is said of any other.
pub proof fn law_programs_are_marked_one_by_one(programs: Programs)
    ensures
        Blur::with_program(programs, BuiltinProgram::Binary) == (Programs {
            binary: true,
            ..programs
        }),
        Blur::with_program(programs, BuiltinProgram::WindowMask) == (Programs {
            window_mask: true,
            ..programs
        }),
        Blur::with_program(programs, BuiltinProgram::Jfa) == (Programs { jfa: true, ..programs }),
        Blur::with_program(programs, BuiltinProgram::OutputMask) == (Programs {
            output_mask: true,
            ..programs
        }),
{
}

/// There is a box for the region mask only if a mask pass draws it and there are
/// subregions; it is then the box around their span.
pub proof fn law_region_mask_has_a_box(
    p: &CustomBlurProgram,
    o: &BlurOptions,
    span: RegionSpan,
    source: Texture,
)
    ensures
        region_box(p, o, span, source) is Some ==> o.subregion_rects.rects@.len() > 0 && exists|
            k: int,
        |
            0 <= k < p.mask_passes@.len() && #[trigger] p.mask_passes@[k] is RegionVectors,
        o.subregion_rects.rects@.len() > 0 && (exists|k: int|
            0 <= k < p.mask_passes@.len() && #[trigger] p.mask_passes@[k] is RegionVectors)
            ==> region_box(p, o, span, source) == padded_box(span, source.size),
{
}

/// The outputs of an earlier frame serve a frame exactly when there are as many as it has
/// render passes, and each has the size of its pass.
pub proof fn law_when_outputs_are_kept(textures: Seq<Texture>, sizes: Seq<Extent>, i: int)
    ensures
        sizes_fit(textures, sizes) ==> textures.len() == sizes.len() && (0 <= i < sizes.len()
            ==> textures[i].size.w == sizes[i].w && textures[i].size.h == sizes[i].h),
        textures.len() == sizes.len() && (forall|k: int|
            0 <= k < sizes.len() ==> (#[trigger] textures[k]).size == sizes[k]) ==> sizes_fit(
            textures,
            sizes,
        ),
{
}

/// The subregions are turned into pixels anew exactly when the rendered mask is of
/// another list or another size, or when their number is not that of the pixels.
pub proof fn law_when_subregions_are_stale(b: &Blur, f: &CustomFrame, o: &BlurOptions)
    ensures
        !b.stale_rects(f, o) <==> (b.mask_key matches Some(k) && k.rects == o.subregion_rects.id
            && k.size == f.source.size) && b.rects_px@.len() == o.subregion_rects.rects@.len(),
{
}

} // verus!
