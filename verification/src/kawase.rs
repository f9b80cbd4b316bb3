//! The dual Kawase blur: a chain of ever smaller textures, drawn down and up.

use vstd::prelude::*;
use vstd::arithmetic::power2::lemma2_to64;

use crate::float_bits::F32Bits;
use crate::gpu::{
    plan_free_of_feedback, Binding, Channels, Draw, Extent, Filter, GpuOp, Pass, Sampling, Texture,
};
use crate::jfa::{halved, lemma_halved_step};

verus! {

/// Most down and up passes of a Kawase blur.
pub const MAX_KAWASE_PASSES: u8 = 31;

// ---------------------------------------------------------------------------
// Passes
// ---------------------------------------------------------------------------

/// A number of passes, brought between one and the limit.
pub open spec fn clamped(passes: u8) -> nat {
    if passes < 1 {
        1
    } else if passes > MAX_KAWASE_PASSES {
        MAX_KAWASE_PASSES as nat
    } else {
        passes as nat
    }
}

/// Bring a number of passes between one and the limit.
pub fn clamp_passes(passes: u8) -> (r: usize)
    ensures
        r == clamped(passes),
        1 <= r <= MAX_KAWASE_PASSES,
{
    if passes < 1 {
        1
    } else if passes > MAX_KAWASE_PASSES {
        MAX_KAWASE_PASSES as usize
    } else {
        passes as usize
    }
}

// ---------------------------------------------------------------------------
// The chain of textures
// ---------------------------------------------------------------------------

/// The size of a link of the chain: the first has the size of the source, each
/// further one half the size of the one before it.
pub open spec fn link_size(source: Extent, i: nat) -> Extent {
    if i == 0 {
        source
    } else {
        Extent { w: halved(source.w as int, i) as i32, h: halved(source.h as int, i) as i32 }
    }
}

/// Every link has its size.
pub open spec fn chain_fits(chain: Seq<Texture>, source: Extent) -> bool {
    forall|i: int| 0 <= i < chain.len() ==> (#[trigger] chain[i]).size == link_size(source, i as nat)
}

/// The chain fits its own first texture.
pub open spec fn chain_wf(chain: Seq<Texture>) -> bool {
    chain.len() > 0 ==> chain_fits(chain, chain[0].size)
}

/// What is left of a chain for a source: nothing, if the output has another size
/// or is still in use elsewhere.
pub open spec fn reusable_chain(chain: Seq<Texture>, source: Extent, output_unique: bool) -> Seq<
    Texture,
> {
    if chain.len() > 0 && (chain[0].size != source || !output_unique) {
        seq![]
    } else {
        chain
    }
}

/// Drop a chain that cannot serve the source.
pub fn drop_unfit_chain(chain: &mut Vec<Texture>, source: Extent, output_unique: bool)
    ensures
        final(chain)@ == reusable_chain(old(chain)@, source, output_unique),
{
    if chain.len() > 0 {
        let size: Extent = chain[0].size;
        if size.w != source.w || size.h != source.h {
            chain.clear();
        } else if !output_unique {
            chain.clear();
        }
    }
}

/// The size of the next texture that the chain lacks.
pub open spec fn missing_link(chain: Seq<Texture>, source: Extent, passes: nat) -> Option<Extent> {
    if chain.len() > passes {
        None
    } else {
        Some(link_size(source, chain.len()))
    }
}

/// Find the size of the next texture that the chain lacks.
pub fn next_link(chain: &Vec<Texture>, source: Extent, passes: usize) -> (size: Option<Extent>)
    requires
        source.w >= 0,
        source.h >= 0,
    ensures
        size == missing_link(chain@, source, passes as nat),
{
    if chain.len() > passes {
        return None;
    }
    let mut w: i32 = source.w;
    let mut h: i32 = source.h;
    let mut i: usize = 0;
    proof {
        lemma2_to64();
    }
    while i < chain.len()
        invariant
            i <= chain@.len(),
            source.w >= 0,
            source.h >= 0,
            w >= 0,
            h >= 0,
            (Extent { w, h }) == link_size(source, i as nat),
        decreases chain@.len() - i,
    {
        proof {
            lemma2_to64();
            lemma_halved_step(source.w as int, i as nat);
            lemma_halved_step(source.h as int, i as nat);
        }
        let half_w: i32 = w / 2;
        let half_h: i32 = h / 2;
        w = if half_w < 1 { 1 } else { half_w };
        h = if half_h < 1 { 1 } else { half_h };
        i = i + 1;
    }
    Some(Extent { w, h })
}

/// Drop the textures that a number of passes does not need.
pub fn trim_chain(chain: &mut Vec<Texture>, passes: usize)
    requires
        passes < usize::MAX,
        passes < old(chain)@.len(),
    ensures
        final(chain)@ == old(chain)@.take(passes + 1),
{
    chain.truncate(passes + 1);
    assert(chain@ =~= old(chain)@.take(passes + 1));
}

/// A chain grown by the texture that it lacked still fits.
pub proof fn law_grown_chain_fits(chain: Seq<Texture>, source: Extent, passes: nat, id: u32)
    requires
        chain_fits(chain, source),
        missing_link(chain, source, passes) is Some,
    ensures
        chain_fits(
            chain.push(Texture { id, size: missing_link(chain, source, passes).unwrap() }),
            source,
        ),
{
}

/// What is left of a well-formed chain fits the source.
pub proof fn law_reusable_chain_fits(chain: Seq<Texture>, source: Extent, output_unique: bool)
    requires
        chain_wf(chain),
    ensures
        chain_fits(reusable_chain(chain, source, output_unique), source),
{
}

// ---------------------------------------------------------------------------
// Drawing
// ---------------------------------------------------------------------------

/// The mask that is offered to the passes of a blur, on the second unit.
pub open spec fn mask_binding(mask: Option<u32>) -> Option<Binding> {
    match mask {
        Some(texture) => Some(Binding { texture, sampling: Sampling::Keep }),
        None => None,
    }
}

fn bind_mask(mask: Option<u32>) -> (r: Option<Binding>)
    ensures
        r == mask_binding(mask),
{
    match mask {
        Some(texture) => Some(Binding { texture, sampling: Sampling::Keep }),
        None => None,
    }
}

/// A pass down, from the source or from a link to the next smaller one. Half of a
/// pixel is that of the destination.
pub open spec fn down_op(
    chain: Seq<Texture>,
    source: u32,
    offset: F32Bits,
    mask: Option<u32>,
    i: int,
) -> GpuOp {
    GpuOp::Draw(
        Draw {
            pass: Pass::KawaseDown { offset, half_pixel: chain[i + 1].size },
            target: chain[i + 1].id,
            viewport: chain[i + 1].size,
            unit0: Some(
                Binding {
                    texture: if i == 0 { source } else { chain[i].id },
                    sampling: Sampling::Clamped(Filter::Linear),
                },
            ),
            unit1: mask_binding(mask),
            unit2: None,
            channels: Channels::All,
        },
    )
}

/// A pass up, from a link to the next larger one; the last goes to the output, in
/// the size of the first link. Half of a pixel is that of the origin.
pub open spec fn up_op(
    chain: Seq<Texture>,
    output: u32,
    offset: F32Bits,
    mask: Option<u32>,
    j: int,
) -> GpuOp {
    let from = chain[chain.len() - 1 - j];
    let to = chain[chain.len() - 2 - j];
    GpuOp::Draw(
        Draw {
            pass: Pass::KawaseUp { offset, half_pixel: from.size },
            target: if j == chain.len() - 2 { output } else { to.id },
            viewport: to.size,
            unit0: Some(
                Binding { texture: from.id, sampling: Sampling::Clamped(Filter::Linear) },
            ),
            unit1: mask_binding(mask),
            unit2: None,
            channels: Channels::All,
        },
    )
}

/// The passes down: as many as asked for.
pub open spec fn down_ops(
    chain: Seq<Texture>,
    source: u32,
    passes: nat,
    offset: F32Bits,
    mask: Option<u32>,
) -> Seq<GpuOp> {
    Seq::new(passes, |i: int| down_op(chain, source, offset, mask, i))
}

/// The passes up: over the whole chain.
pub open spec fn up_ops(
    chain: Seq<Texture>,
    output: u32,
    offset: F32Bits,
    mask: Option<u32>,
) -> Seq<GpuOp> {
    Seq::new((chain.len() - 1) as nat, |j: int| up_op(chain, output, offset, mask, j))
}

/// Draw down and up the chain, from `source` to `output`. The passes use the first
/// textures of the chain, one more than there are passes, and none beyond.
pub fn draw_chain(
    ops: &mut Vec<GpuOp>,
    chain: &Vec<Texture>,
    source: u32,
    output: u32,
    passes: usize,
    offset: F32Bits,
    mask: Option<u32>,
)
    requires
        passes < chain@.len(),
    ensures
        final(ops)@ == old(ops)@ + down_ops(
            chain@.take(passes + 1),
            source,
            passes as nat,
            offset,
            mask,
        ) + up_ops(chain@.take(passes + 1), output, offset, mask),
{
    let bound: Option<Binding> = bind_mask(mask);
    let ghost used = chain@.take(passes + 1);
    let ghost down = down_ops(used, source, passes as nat, offset, mask);
    let ghost up = up_ops(used, output, offset, mask);
    let mut last: u32 = source;
    let mut i: usize = 0;
    assert(ops@ =~= old(ops)@ + down.take(0));
    while i < passes
        invariant
            i <= passes < chain@.len(),
            used == chain@.take(passes + 1),
            bound == mask_binding(mask),
            last == (if i == 0 { source } else { chain@[i as int].id }),
            down == down_ops(used, source, passes as nat, offset, mask),
            ops@ == old(ops)@ + down.take(i as int),
        decreases passes - i,
    {
        let to: Texture = chain[i + 1];
        ops.push(
            GpuOp::Draw(
                Draw {
                    pass: Pass::KawaseDown { offset, half_pixel: to.size },
                    target: to.id,
                    viewport: to.size,
                    unit0: Some(
                        Binding { texture: last, sampling: Sampling::Clamped(Filter::Linear) },
                    ),
                    unit1: bound,
                    unit2: None,
                    channels: Channels::All,
                },
            ),
        );
        last = to.id;
        assert(down.take(i + 1) =~= down.take(i as int).push(down[i as int]));
        assert(ops@ =~= old(ops)@ + down.take(i + 1));
        i = i + 1;
    }
    assert(down.take(i as int) =~= down);
    let mut j: usize = 0;
    assert(ops@ =~= old(ops)@ + down + up.take(0));
    while j < passes
        invariant
            j <= passes < chain@.len(),
            used == chain@.take(passes + 1),
            bound == mask_binding(mask),
            up == up_ops(used, output, offset, mask),
            ops@ == old(ops)@ + down + up.take(j as int),
        decreases passes - j,
    {
        let from: Texture = chain[passes - j];
        let to: Texture = chain[passes - 1 - j];
        ops.push(
            GpuOp::Draw(
                Draw {
                    pass: Pass::KawaseUp { offset, half_pixel: from.size },
                    target: if j == passes - 1 { output } else { to.id },
                    viewport: to.size,
                    unit0: Some(
                        Binding { texture: from.id, sampling: Sampling::Clamped(Filter::Linear) },
                    ),
                    unit1: bound,
                    unit2: None,
                    channels: Channels::All,
                },
            ),
        );
        assert(up.take(j + 1) =~= up.take(j as int).push(up[j as int]));
        assert(ops@ =~= old(ops)@ + down + up.take(j + 1));
        j = j + 1;
    }
    assert(up.take(j as int) =~= up);
}

/// A whole dual Kawase blur with a mask on offer.
pub open spec fn dual_kawase_ops(
    chain: Seq<Texture>,
    source: u32,
    output: u32,
    passes: nat,
    offset: F32Bits,
    mask: u32,
) -> Seq<GpuOp> {
    seq![GpuOp::Sample { texture: mask, sampling: Sampling::Clamped(Filter::Linear) }] + down_ops(
        chain,
        source,
        passes,
        offset,
        Some(mask),
    ) + up_ops(chain, output, offset, Some(mask))
}

/// Run the dual Kawase blur from `source` to `output`. The mask stays on the
/// second unit throughout, so that mask-aware shaders can sample it.
///
/// A chain that is longer than the passes need, as that of a longer blur is, is
/// used no further than they need it: the way up starts where the way down ended.
pub fn run_dual_kawase_blur(
    ops: &mut Vec<GpuOp>,
    chain: &Vec<Texture>,
    source: u32,
    output: u32,
    passes: usize,
    offset: F32Bits,
    mask: u32,
)
    requires
        passes < chain@.len(),
    ensures
        final(ops)@ == old(ops)@ + dual_kawase_ops(
            chain@.take(passes + 1),
            source,
            output,
            passes as nat,
            offset,
            mask,
        ),
{
    ops.push(GpuOp::Sample { texture: mask, sampling: Sampling::Clamped(Filter::Linear) });
    draw_chain(ops, chain, source, output, passes, offset, Some(mask));
    assert(ops@ =~= old(ops)@ + dual_kawase_ops(
        chain@.take(passes + 1),
        source,
        output,
        passes as nat,
        offset,
        mask,
    ));
}

// ---------------------------------------------------------------------------
// Laws
// ---------------------------------------------------------------------------

/// The way down starts at the source and hands each texture to the next pass.
pub proof fn law_way_down_is_linked(
    chain: Seq<Texture>,
    source: u32,
    passes: nat,
    offset: F32Bits,
    mask: Option<u32>,
    i: int,
)
    requires
        0 <= i < passes < chain.len(),
    ensures
        i == 0 ==> down_ops(chain, source, passes, offset, mask)[i].reads(source),
        i > 0 ==> down_ops(chain, source, passes, offset, mask)[i - 1].writes(chain[i].id)
            && down_ops(chain, source, passes, offset, mask)[i].reads(chain[i].id),
{
}

/// The way up starts at the smallest texture, hands each texture to the next
/// pass, and ends at the output in the size of the first texture.
pub proof fn law_way_up_is_linked(
    chain: Seq<Texture>,
    output: u32,
    offset: F32Bits,
    mask: Option<u32>,
    j: int,
)
    requires
        0 <= j < chain.len() - 1,
    ensures
        up_ops(chain, output, offset, mask)[0].reads(chain.last().id),
        j > 0 ==> up_ops(chain, output, offset, mask)[j - 1].writes(chain[chain.len() - 1 - j].id)
            && up_ops(chain, output, offset, mask)[j].reads(chain[chain.len() - 1 - j].id),
        up_ops(chain, output, offset, mask).last().writes(output),
        up_ops(chain, output, offset, mask).last()->Draw_0.viewport == chain[0].size,
{
}

/// The way up starts where the way down ended, and has as many passes, however long
/// the chain is.
pub proof fn law_way_up_follows_way_down(
    chain: Seq<Texture>,
    source: u32,
    output: u32,
    passes: nat,
    offset: F32Bits,
    mask: Option<u32>,
)
    requires
        1 <= passes < chain.len(),
    ensures
        down_ops(chain.take(passes as int + 1), source, passes, offset, mask).last().writes(
            chain[passes as int].id,
        ),
        up_ops(chain.take(passes as int + 1), output, offset, mask)[0].reads(chain[passes as int].id),
        up_ops(chain.take(passes as int + 1), output, offset, mask).len() == passes,
{
}

/// The textures of the chain beyond the passes are neither read nor written.
pub proof fn law_unused_links_are_left_alone(
    chain: Seq<Texture>,
    source: u32,
    output: u32,
    passes: nat,
    offset: F32Bits,
    mask: u32,
    k: int,
    i: int,
)
    requires
        passes < k < chain.len(),
        forall|a: int, b: int|
            0 <= a < b < chain.len() ==> (#[trigger] chain[a]).id != (#[trigger] chain[b]).id,
        chain[k].id != source,
        chain[k].id != output,
        chain[k].id != mask,
        0 <= i < dual_kawase_ops(chain.take(passes as int + 1), source, output, passes, offset, mask).len(),
    ensures
        !dual_kawase_ops(chain.take(passes as int + 1), source, output, passes, offset, mask)[i].reads(
            chain[k].id,
        ),
        !dual_kawase_ops(chain.take(passes as int + 1), source, output, passes, offset, mask)[i].writes(
            chain[k].id,
        ),
{
    let used = chain.take(passes as int + 1);
    assert forall|a: int| 0 <= a < used.len() implies (#[trigger] used[a]).id != chain[k].id by {
        assert(used[a] == chain[a]);
    }
    let all = dual_kawase_ops(used, source, output, passes, offset, mask);
    if 1 <= i <= passes {
        assert(all[i] == down_op(used, source, offset, Some(mask), i - 1));
    } else if i > passes {
        assert(all[i] == up_op(used, output, offset, Some(mask), i - 1 - passes));
    }
}

/// The texture is one of those below the first of the chain.
pub open spec fn below_first(chain: Seq<Texture>, id: u32) -> bool {
    exists|i: int| 1 <= i < chain.len() && (#[trigger] chain[i]).id == id
}

/// No pass reads the texture that it writes, as long as no texture serves twice
/// and the source, the output and the mask are none of the smaller ones.
pub proof fn law_kawase_free_of_feedback(
    chain: Seq<Texture>,
    source: u32,
    output: u32,
    passes: nat,
    offset: F32Bits,
    mask: Option<u32>,
)
    requires
        passes < chain.len(),
        forall|i: int, j: int|
            0 <= i < j < chain.len() ==> (#[trigger] chain[i]).id != (#[trigger] chain[j]).id,
        !below_first(chain, source),
        !below_first(chain, output),
        mask matches Some(m) ==> !below_first(chain, m) && m != output,
    ensures
        plan_free_of_feedback(down_ops(chain, source, passes, offset, mask)),
        plan_free_of_feedback(up_ops(chain, output, offset, mask)),
{
    let down = down_ops(chain, source, passes, offset, mask);
    let up = up_ops(chain, output, offset, mask);
    assert forall|i: int| 0 <= i < down.len() implies (#[trigger] down[i]).free_of_feedback() by {
        assert(below_first(chain, chain[i + 1].id));
        if i > 0 {
            assert(chain[i].id != chain[i + 1].id);
        }
    }
    assert forall|j: int| 0 <= j < up.len() implies (#[trigger] up[j]).free_of_feedback() by {
        let a = chain.len() - 2 - j;
        assert(below_first(chain, chain[a + 1].id));
        assert(chain[a].id != chain[a + 1].id);
        if a > 0 {
            assert(below_first(chain, chain[a].id));
        }
    }
}

// ---------------------------------------------------------------------------
// Laws of the chain of textures
// ---------------------------------------------------------------------------

/// A number of passes between one and 31 stays as it is; any other becomes the nearest
/// of these.
pub proof fn law_passes_stay_within_limits(passes: u8)
    ensures
        passes == 0 ==> clamped(passes) == 1,
        1 <= passes <= 31 ==> clamped(passes) == passes,
        passes > 31 ==> clamped(passes) == 31,
{
}

/// The textures of a chain that fits a source: the first has its size, and each further
/// one half the size of the one before it on either side, but at least one pixel.
pub proof fn law_links_halve(chain: Seq<Texture>, source: Extent, i: int)
    requires
        source.w >= 0,
        source.h >= 0,
        chain_fits(chain, source),
        0 <= i < chain.len(),
    ensures
        i == 0 ==> chain[i].size == source,
        i > 0 ==> {
            &&& chain[i].size.w == (if chain[i - 1].size.w < 2 { 1 } else { chain[i - 1].size.w / 2 })
            &&& chain[i].size.h == (if chain[i - 1].size.h < 2 { 1 } else { chain[i - 1].size.h / 2 })
        },
{
    lemma2_to64();
    assert(chain[i].size == link_size(source, i as nat));
    if i > 0 {
        assert(chain[i - 1].size == link_size(source, (i - 1) as nat));
        lemma_halved_step(source.w as int, (i - 1) as nat);
        lemma_halved_step(source.h as int, (i - 1) as nat);
        lemma_halved_fits(source, i as nat);
        lemma_halved_fits(source, (i - 1) as nat);
        if i == 1 {
            assert(source.w as int / 1 == source.w);
            assert(source.h as int / 1 == source.h);
        }
    }
}

proof fn lemma_halved_fits(source: Extent, i: nat)
    requires
        source.w >= 0,
        source.h >= 0,
    ensures
        1 <= halved(source.w as int, i) <= i32::MAX,
        1 <= halved(source.h as int, i) <= i32::MAX,
{
    lemma_halved_step(source.w as int, i);
    lemma_halved_step(source.h as int, i);
    if source.w == 0 {
        vstd::arithmetic::power2::lemma_pow2_pos(i);
        vstd::arithmetic::div_mod::lemma_div_basics(vstd::arithmetic::power2::pow2(i) as int);
    }
    if source.h == 0 {
        vstd::arithmetic::power2::lemma_pow2_pos(i);
        vstd::arithmetic::div_mod::lemma_div_basics(vstd::arithmetic::power2::pow2(i) as int);
    }
}

/// A chain lacks a texture as long as it has no more textures than there are passes. The
/// first that it lacks has the size of the source, any other half the size of the last
/// that is there.
pub proof fn law_missing_link_is_half_of_the_last(
    chain: Seq<Texture>,
    source: Extent,
    passes: nat,
)
    requires
        source.w >= 0,
        source.h >= 0,
        chain_fits(chain, source),
    ensures
        missing_link(chain, source, passes) is None <==> chain.len() > passes,
        missing_link(chain, source, passes) matches Some(size) ==> {
            &&& chain.len() == 0 ==> size == source
            &&& chain.len() > 0 ==> {
                let last = chain[chain.len() - 1].size;
                &&& size.w == (if last.w < 2 { 1 } else { last.w / 2 })
                &&& size.h == (if last.h < 2 { 1 } else { last.h / 2 })
            }
        },
{
    if let Some(size) = missing_link(chain, source, passes) {
        let grown = chain.push(Texture { id: 0, size });
        law_grown_chain_fits(chain, source, passes, 0);
        law_links_halve(grown, source, chain.len() as int);
    }
}

/// A chain is kept as it is if its first texture has the size of the source and is in
/// use nowhere else; otherwise nothing of it is kept.
pub proof fn law_chain_is_kept_or_dropped(
    chain: Seq<Texture>,
    source: Extent,
    output_unique: bool,
)
    ensures
        reusable_chain(chain, source, output_unique) == chain || reusable_chain(
            chain,
            source,
            output_unique,
        ).len() == 0,
        chain.len() > 0 ==> (reusable_chain(chain, source, output_unique).len() > 0
            <==> chain[0].size.w == source.w && chain[0].size.h == source.h && output_unique),
{
}

} // verus!
