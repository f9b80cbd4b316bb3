//! The region mask: jump flooding for distances and a multigrid Poisson solve
//! for directions, both in the coordinates of a bounding box.

use vstd::prelude::*;
use vstd::arithmetic::power2::{lemma2_to64, lemma_pow2_pos, lemma_pow2_unfold, pow2};

use crate::float_bits::F32Bits;
use crate::gpu::{
    lemma_free_of_feedback_concat, plan_free_of_feedback, plan_leaves, Binding, Channels, Draw,
    Edges, Extent, Filter, GpuOp, Pass, Rect, Sampling,
};
use crate::multigrid::{
    clear_solutions, init_rhs_level0, law_v_cycle_free_of_feedback, level_has, pyramid_distinct,
    restrict_mask_ops, restrict_mask_pyramid, rhs_level0_op, run_v_cycle, v_cycle_ops, v_cycle_side,
    zero_guess_ops, MultigridLevel, Schedule, Side,
};

verus! {

/// Pixels of exterior border padding around the bounding box.
pub const BBOX_BORDER: i32 = 1;

/// Most levels that the Poisson pyramid can have.
pub const MAX_MULTIGRID_LEVELS: usize = 12;

/// Side of a grid that is coarse enough to end the pyramid.
pub const MULTIGRID_COARSE_SIZE: i32 = 8;

/// Damping factor of the Jacobi smoother: the bit pattern of 0.8.
pub const JACOBI_OMEGA_BITS: u32 = 0x3f4c_cccd;

/// Jacobi sweeps on each side of a prolongation.
pub const JACOBI_SWEEPS: u32 = 3;

/// V-cycles per Poisson solve.
pub const V_CYCLES: usize = 1;

/// The textures of the region mask, sized for one bounding box.
#[derive(Debug)]
pub struct JfaTextures {
    /// Binary mask of the union of the subregions.
    pub bin: u32,
    /// Nearest exterior coordinate, side A.
    pub jfa_a: u32,
    /// Nearest exterior coordinate, side B.
    pub jfa_b: u32,
    /// Levels from fine to coarse.
    pub pyramid: Vec<MultigridLevel>,
    /// Encoded output, kept from frame to frame.
    pub encoded: u32,
    pub size: Extent,
}

impl JfaTextures {
    /// The pyramid has the levels that the box calls for.
    pub open spec fn wf(&self) -> bool {
        &&& self.size.w > 0
        &&& self.size.h > 0
        &&& is_depth(self.size, self.pyramid@.len())
        &&& forall|k: int|
            0 <= k < self.pyramid@.len() ==> (#[trigger] self.pyramid@[k]).size == level_size(
                self.size,
                k as nat,
            )
    }
}

// ---------------------------------------------------------------------------
// Sizes
// ---------------------------------------------------------------------------

/// A length halved `k` times, never below one pixel.
pub open spec fn halved(length: int, k: nat) -> int {
    let h = length / (pow2(k) as int);
    if h < 1 { 1 } else { h }
}

/// The size of a pyramid level.
pub open spec fn level_size(bbox: Extent, k: nat) -> Extent {
    Extent { w: halved(bbox.w as int, k) as i32, h: halved(bbox.h as int, k) as i32 }
}

/// The grid is small enough to end the pyramid.
pub open spec fn coarse(size: Extent) -> bool {
    size.w <= MULTIGRID_COARSE_SIZE && size.h <= MULTIGRID_COARSE_SIZE
}

/// A pyramid of `depth` levels ends at the first coarse grid, or at the limit.
pub open spec fn is_depth(bbox: Extent, depth: nat) -> bool {
    &&& 1 <= depth <= MAX_MULTIGRID_LEVELS
    &&& depth == MAX_MULTIGRID_LEVELS || coarse(level_size(bbox, (depth - 1) as nat))
    &&& forall|k: nat| k + 1 < depth ==> !coarse(#[trigger] level_size(bbox, k))
}

/// A length halved once more than `k` times is the half of the length halved `k`
/// times.
pub proof fn lemma_halved_step(length: int, k: nat)
    requires
        length >= 0,
    ensures
        halved(length, k + 1) == (if halved(length, k) / 2 < 1 { 1 } else { halved(length, k) / 2 }),
        1 <= halved(length, k),
        length >= 1 ==> halved(length, k) <= length,
{
    lemma_pow2_pos(k);
    lemma_pow2_unfold(k + 1);
    let p = pow2(k) as int;
    assert(length / (2 * p) == (length / p) / 2) by {
        vstd::arithmetic::div_mod::lemma_div_denominator(length, p, 2);
        assert(p * 2 == 2 * p);
    }
    vstd::arithmetic::div_mod::lemma_div_is_ordered_by_denominator(length, 1, p);
    vstd::arithmetic::div_mod::lemma_div_pos_is_pos(length, p);
}

/// The sizes of the pyramid levels for a bounding box, from fine to coarse.
pub fn pyramid_sizes(bbox: Extent) -> (sizes: Vec<Extent>)
    requires
        bbox.w > 0,
        bbox.h > 0,
    ensures
        is_depth(bbox, sizes@.len()),
        forall|k: int| 0 <= k < sizes@.len() ==> #[trigger] sizes@[k] == level_size(bbox, k as nat),
{
    let mut sizes: Vec<Extent> = Vec::new();
    let mut size: Extent = bbox;
    proof {
        lemma2_to64();
        assert(size == level_size(bbox, 0));
    }
    loop
        invariant
            bbox.w > 0,
            bbox.h > 0,
            sizes@.len() < MAX_MULTIGRID_LEVELS,
            size == level_size(bbox, sizes@.len()),
            1 <= size.w <= bbox.w,
            1 <= size.h <= bbox.h,
            forall|k: int|
                0 <= k < sizes@.len() ==> #[trigger] sizes@[k] == level_size(bbox, k as nat),
            forall|k: nat| k < sizes@.len() ==> !coarse(#[trigger] level_size(bbox, k)),
        decreases MAX_MULTIGRID_LEVELS - sizes@.len(),
    {
        sizes.push(size);
        if size.w <= MULTIGRID_COARSE_SIZE && size.h <= MULTIGRID_COARSE_SIZE {
            return sizes;
        }
        if sizes.len() == MAX_MULTIGRID_LEVELS {
            return sizes;
        }
        proof {
            lemma_halved_step(bbox.w as int, (sizes@.len() - 1) as nat);
            lemma_halved_step(bbox.h as int, (sizes@.len() - 1) as nat);
        }
        let half_w: i32 = size.w / 2;
        let half_h: i32 = size.h / 2;
        size = Extent {
            w: if half_w < 1 { 1 } else { half_w },
            h: if half_h < 1 { 1 } else { half_h },
        };
    }
}

// ---------------------------------------------------------------------------
// Clears
// ---------------------------------------------------------------------------

/// Clear the whole mask texture.
pub fn clear_mask_texture(ops: &mut Vec<GpuOp>, mask: u32)
    ensures
        final(ops)@ == old(ops)@.push(GpuOp::Clear { target: mask, region: None }),
{
    ops.push(GpuOp::Clear { target: mask, region: None });
}

/// What clears one region: nothing when the region is empty.
pub open spec fn clear_region_ops(mask: u32, region: Rect) -> Seq<GpuOp> {
    if region.w <= 0 || region.h <= 0 {
        seq![]
    } else {
        seq![GpuOp::Clear { target: mask, region: Some(region) }]
    }
}

/// Clear one region of the mask texture, if it is not empty.
pub fn clear_mask_texture_region(ops: &mut Vec<GpuOp>, mask: u32, region: Rect)
    ensures
        final(ops)@ == old(ops)@ + clear_region_ops(mask, region),
{
    if region.w <= 0 || region.h <= 0 {
        return;
    }
    ops.push(GpuOp::Clear { target: mask, region: Some(region) });
}

// ---------------------------------------------------------------------------
// Binary mask
// ---------------------------------------------------------------------------

/// The clears that keep the border of a target exterior: its left and right
/// columns, then its bottom and top rows.
pub open spec fn border_ops(target: u32, size: Extent) -> Seq<GpuOp> {
    let columns = if size.w > 0 {
        seq![
            GpuOp::Clear {
                target,
                region: Some(Rect { x: 0, y: 0, w: BBOX_BORDER, h: size.h }),
            },
            GpuOp::Clear {
                target,
                region: Some(
                    Rect { x: (size.w - BBOX_BORDER) as i32, y: 0, w: BBOX_BORDER, h: size.h },
                ),
            },
        ]
    } else {
        seq![]
    };
    let rows = if size.h > 0 {
        seq![
            GpuOp::Clear {
                target,
                region: Some(Rect { x: 0, y: 0, w: size.w, h: BBOX_BORDER }),
            },
            GpuOp::Clear {
                target,
                region: Some(
                    Rect { x: 0, y: (size.h - BBOX_BORDER) as i32, w: size.w, h: BBOX_BORDER },
                ),
            },
        ]
    } else {
        seq![]
    };
    columns + rows
}

/// The draw that covers the subregions, one instance per rectangle.
pub open spec fn binary_draw(target: u32, rects_texture: u32, instances: i32, bbox: Rect) -> GpuOp {
    let size = Extent { w: bbox.w, h: bbox.h };
    GpuOp::Draw(
        Draw {
            pass: Pass::BinaryMask {
                output: size,
                origin_x: bbox.x,
                origin_y: bbox.y,
                instances,
            },
            target,
            viewport: size,
            unit0: None,
            unit1: Some(Binding { texture: rects_texture, sampling: Sampling::Keep }),
            unit2: None,
            channels: Channels::All,
        },
    )
}

/// The binary mask of a box: cleared, covered by the rectangles, its border made
/// exterior again.
pub open spec fn binary_mask_ops(
    target: u32,
    rects_texture: u32,
    instances: i32,
    bbox: Rect,
) -> Seq<GpuOp> {
    seq![
        GpuOp::Clear { target, region: None },
        binary_draw(target, rects_texture, instances, bbox),
    ] + border_ops(target, Extent { w: bbox.w, h: bbox.h }) + seq![
        GpuOp::Sample { texture: target, sampling: Sampling::Clamped(Filter::Nearest) },
    ]
}

/// Draw the binary mask of the subregions within `bbox`.
pub fn render_binary_mask(
    ops: &mut Vec<GpuOp>,
    target: u32,
    rects_texture: u32,
    instances: i32,
    bbox: Rect,
)
    ensures
        final(ops)@ == old(ops)@ + binary_mask_ops(target, rects_texture, instances, bbox),
{
    let size: Extent = Extent { w: bbox.w, h: bbox.h };
    ops.push(GpuOp::Clear { target, region: None });
    ops.push(
        GpuOp::Draw(
            Draw {
                pass: Pass::BinaryMask {
                    output: size,
                    origin_x: bbox.x,
                    origin_y: bbox.y,
                    instances,
                },
                target,
                viewport: size,
                unit0: None,
                unit1: Some(Binding { texture: rects_texture, sampling: Sampling::Keep }),
                unit2: None,
                channels: Channels::All,
            },
        ),
    );
    // Keep the padded border exterior even when a region touches the edge of the
    // source: jump flooding needs these exterior seeds.
    let border_x: i32 = if BBOX_BORDER < bbox.w { BBOX_BORDER } else { bbox.w };
    let border_y: i32 = if BBOX_BORDER < bbox.h { BBOX_BORDER } else { bbox.h };
    if border_x > 0 {
        ops.push(
            GpuOp::Clear { target, region: Some(Rect { x: 0, y: 0, w: border_x, h: bbox.h }) },
        );
        ops.push(
            GpuOp::Clear {
                target,
                region: Some(Rect { x: bbox.w - border_x, y: 0, w: border_x, h: bbox.h }),
            },
        );
    }
    if border_y > 0 {
        ops.push(
            GpuOp::Clear { target, region: Some(Rect { x: 0, y: 0, w: bbox.w, h: border_y }) },
        );
        ops.push(
            GpuOp::Clear {
                target,
                region: Some(Rect { x: 0, y: bbox.h - border_y, w: bbox.w, h: border_y }),
            },
        );
    }
    ops.push(GpuOp::Sample { texture: target, sampling: Sampling::Clamped(Filter::Nearest) });
    assert(ops@ =~= old(ops)@ + binary_mask_ops(target, rects_texture, instances, bbox));
}

/// The operation clears the given pixel.
pub open spec fn clears_pixel(op: GpuOp, target: u32, x: int, y: int) -> bool {
    op matches GpuOp::Clear { target: cleared, region } && cleared == target && (match region {
        None => true,
        Some(r) => r.x <= x < r.x + r.w && r.y <= y < r.y + r.h,
    })
}

/// Jump flooding always finds exterior seeds: after the rectangles are drawn,
/// exactly the outermost pixels of the box are cleared again.
pub proof fn law_border_is_exterior(target: u32, size: Extent, x: int, y: int)
    requires
        0 <= x < size.w,
        0 <= y < size.h,
    ensures
        (exists|i: int|
            0 <= i < border_ops(target, size).len() && clears_pixel(
                #[trigger] border_ops(target, size)[i],
                target,
                x,
                y,
            )) <==> (x < BBOX_BORDER || y < BBOX_BORDER || x >= size.w - BBOX_BORDER || y >= size.h
            - BBOX_BORDER),
{
    let ops = border_ops(target, size);
    assert(ops.len() == 4);
    if x < BBOX_BORDER {
        assert(clears_pixel(ops[0], target, x, y));
    }
    if x >= size.w - BBOX_BORDER {
        assert(clears_pixel(ops[1], target, x, y));
    }
    if y < BBOX_BORDER {
        assert(clears_pixel(ops[2], target, x, y));
    }
    if y >= size.h - BBOX_BORDER {
        assert(clears_pixel(ops[3], target, x, y));
    }
}

// ---------------------------------------------------------------------------
// Jump flooding
// ---------------------------------------------------------------------------

/// A draw of one input over the whole target.
pub open spec fn single_input_draw(
    pass: Pass,
    source: u32,
    sampling: Sampling,
    target: u32,
    viewport: Extent,
) -> GpuOp {
    GpuOp::Draw(
        Draw {
            pass,
            target,
            viewport,
            unit0: Some(Binding { texture: source, sampling }),
            unit1: None,
            unit2: None,
            channels: Channels::All,
        },
    )
}

fn push_single_input_draw(
    ops: &mut Vec<GpuOp>,
    pass: Pass,
    source: u32,
    sampling: Sampling,
    target: u32,
    viewport: Extent,
)
    ensures
        final(ops)@ == old(ops)@.push(single_input_draw(pass, source, sampling, target, viewport)),
{
    ops.push(
        GpuOp::Draw(
            Draw {
                pass,
                target,
                viewport,
                unit0: Some(Binding { texture: source, sampling }),
                unit1: None,
                unit2: None,
                channels: Channels::All,
            },
        ),
    );
}

/// Seeds of the flooding, from the binary mask.
pub open spec fn jfa_init_ops(source: u32, target: u32, size: Extent) -> Seq<GpuOp> {
    seq![
        single_input_draw(Pass::JfaInit { output: size }, source, Sampling::Keep, target, size),
        GpuOp::Sample { texture: target, sampling: Sampling::Clamped(Filter::Nearest) },
    ]
}

/// Seed the flooding from the binary mask.
pub fn jfa_init_pass(ops: &mut Vec<GpuOp>, source: u32, target: u32, size: Extent)
    ensures
        final(ops)@ == old(ops)@ + jfa_init_ops(source, target, size),
{
    push_single_input_draw(
        ops,
        Pass::JfaInit { output: size },
        source,
        Sampling::Keep,
        target,
        size,
    );
    ops.push(GpuOp::Sample { texture: target, sampling: Sampling::Clamped(Filter::Nearest) });
    assert(ops@ =~= old(ops)@ + jfa_init_ops(source, target, size));
}

/// The exponent of the largest power of two that is no larger than `n`.
pub open spec fn log2_floor(n: int) -> nat
    decreases n,
{
    if n < 2 {
        0
    } else {
        1 + log2_floor(n / 2)
    }
}

/// The longer side of a box.
pub open spec fn longer_side(size: Extent) -> int {
    if size.w >= size.h {
        size.w as int
    } else {
        size.h as int
    }
}

/// The number of flooding steps for a box.
pub open spec fn jfa_rounds(size: Extent) -> nat {
    log2_floor(longer_side(size)) + 1
}

/// The distance over which the given step of a flooding propagates.
pub open spec fn jfa_step_length(size: Extent, round: int) -> int {
    pow2((jfa_rounds(size) - 1 - round) as nat) as int
}

/// Of two textures that steps alternate between, the one read in the given step.
pub open spec fn read_in_round(initial: u32, scratch: u32, round: int) -> u32 {
    if round % 2 == 0 {
        initial
    } else {
        scratch
    }
}

/// The given step of a flooding.
pub open spec fn jfa_step_op(initial: u32, scratch: u32, size: Extent, round: int) -> GpuOp {
    single_input_draw(
        Pass::JfaStep { output: size, step: jfa_step_length(size, round) as i32 },
        read_in_round(initial, scratch, round),
        Sampling::Filtered(Filter::Nearest),
        read_in_round(initial, scratch, round + 1),
        size,
    )
}

/// All steps of a flooding.
pub open spec fn jfa_step_ops(initial: u32, scratch: u32, size: Extent) -> Seq<GpuOp> {
    Seq::new(jfa_rounds(size), |round: int| jfa_step_op(initial, scratch, size, round))
}

/// The texture that holds the outcome of a flooding.
pub open spec fn jfa_outcome(initial: u32, scratch: u32, size: Extent) -> u32 {
    read_in_round(initial, scratch, jfa_rounds(size) as int)
}

/// The first step spans the largest power of two that fits the longer side.
pub proof fn lemma_log2_floor(n: int)
    requires
        n >= 1,
    ensures
        pow2(log2_floor(n)) <= n < 2 * pow2(log2_floor(n)),
    decreases n,
{
    lemma2_to64();
    if n >= 2 {
        lemma_log2_floor(n / 2);
        lemma_pow2_unfold(log2_floor(n));
    }
}

/// A flooding starts at the largest power of two that is no larger than the
/// longer side, halves the distance from step to step, and ends at one pixel.
pub proof fn law_jfa_steps_halve_down_to_one(size: Extent, round: int)
    requires
        size.w >= 1,
        size.h >= 1,
        0 <= round < jfa_rounds(size),
    ensures
        jfa_step_length(size, 0) <= longer_side(size) < 2 * jfa_step_length(size, 0),
        jfa_step_length(size, jfa_rounds(size) - 1) == 1,
        round + 1 < jfa_rounds(size) ==> jfa_step_length(size, round) == 2 * jfa_step_length(
            size,
            round + 1,
        ),
{
    lemma_log2_floor(longer_side(size));
    lemma2_to64();
    if round + 1 < jfa_rounds(size) {
        lemma_pow2_unfold((jfa_rounds(size) - 1 - round) as nat);
    }
}

/// Each step of a flooding reads what the step before it wrote, the first reads
/// the initial texture, and the outcome is what the last one wrote.
pub proof fn law_jfa_steps_alternate(initial: u32, scratch: u32, size: Extent, round: int)
    requires
        initial != scratch,
        0 <= round < jfa_rounds(size),
    ensures
        jfa_step_ops(initial, scratch, size)[round].free_of_feedback(),
        jfa_step_ops(initial, scratch, size)[0].reads(initial),
        round > 0 ==> exists|texture: u32|
            jfa_step_ops(initial, scratch, size)[round - 1].writes(texture) && #[trigger]
                jfa_step_ops(initial, scratch, size)[round].reads(texture),
        jfa_step_ops(initial, scratch, size)[jfa_rounds(size) - 1].writes(
            jfa_outcome(initial, scratch, size),
        ),
{
    let ops = jfa_step_ops(initial, scratch, size);
    if round > 0 {
        let t = read_in_round(initial, scratch, round);
        assert(ops[round - 1].writes(t) && ops[round].reads(t));
    }
}

/// Run the flooding, alternating between two textures; the result is the texture
/// that holds the outcome.
pub fn run_jfa_steps(ops: &mut Vec<GpuOp>, initial: u32, scratch: u32, size: Extent) -> (outcome:
    u32)
    ensures
        final(ops)@ == old(ops)@ + jfa_step_ops(initial, scratch, size),
        outcome == jfa_outcome(initial, scratch, size),
{
    let longest: i32 = if size.w >= size.h { size.w } else { size.h };
    let mut step: i32 = 1;
    let ghost mut exponent: nat = 0;
    proof {
        lemma2_to64();
        assert(longest as int / (pow2(0) as int) == longest);
    }
    while step <= longest / 2
        invariant
            longest as int == longer_side(size),
            step >= 1,
            step as int == pow2(exponent),
            longest < 2 ==> exponent == 0,
            longest >= 1 ==> step <= longest,
            longest >= 1 ==> log2_floor(longest as int) == exponent + log2_floor(
                longest as int / (pow2(exponent) as int),
            ),
        decreases longest - step,
    {
        proof {
            let e = exponent;
            let p = pow2(e) as int;
            lemma_pow2_unfold(e + 1);
            lemma_pow2_pos(e);
            assert(longest as int / (2 * p) == (longest as int / p) / 2) by {
                vstd::arithmetic::div_mod::lemma_div_denominator(longest as int, p, 2);
                assert(p * 2 == 2 * p);
            }
            assert(longest as int / p >= 2) by {
                assert(2 * p <= longest);
                vstd::arithmetic::div_mod::lemma_div_is_ordered(2 * p, longest as int, p);
                vstd::arithmetic::div_mod::lemma_div_multiples_vanish(2, p);
                assert(p * 2 == 2 * p);
            }
            exponent = e + 1;
        }
        step = step * 2;
    }
    proof {
        let p = pow2(exponent) as int;
        lemma_pow2_pos(exponent);
        if longest >= 1 {
            assert(longest as int / p < 2) by {
                assert((longest as int) < 2 * p);
                vstd::arithmetic::div_mod::lemma_multiply_divide_lt(longest as int, p, 2);
                assert(p * 2 == 2 * p);
            }
        }
        assert(exponent == log2_floor(longest as int));
    }
    let mut read: u32 = initial;
    let mut write: u32 = scratch;
    let ghost rounds = jfa_rounds(size);
    let ghost mut round: int = 0;
    while step > 0
        invariant
            rounds == jfa_rounds(size),
            0 <= round <= rounds,
            round < rounds ==> step as int == pow2((rounds - 1 - round) as nat),
            round == rounds ==> step == 0,
            read == read_in_round(initial, scratch, round),
            write == read_in_round(initial, scratch, round + 1),
            ops@ == old(ops)@ + jfa_step_ops(initial, scratch, size).take(round),
        decreases rounds - round,
    {
        proof {
            assert(round < rounds);
            lemma2_to64();
            if round + 1 < rounds {
                lemma_pow2_unfold((rounds - 1 - round) as nat);
            }
        }
        push_single_input_draw(
            ops,
            Pass::JfaStep { output: size, step },
            read,
            Sampling::Filtered(Filter::Nearest),
            write,
            size,
        );
        let swapped: u32 = read;
        read = write;
        write = swapped;
        step = step / 2;
        proof {
            let all = jfa_step_ops(initial, scratch, size);
            assert(all.take(round + 1) =~= all.take(round).push(all[round]));
            round = round + 1;
            assert(ops@ =~= old(ops)@ + all.take(round));
        }
    }
    proof {
        if round < rounds {
            lemma_pow2_pos((rounds - 1 - round) as nat);
        }
        let all = jfa_step_ops(initial, scratch, size);
        assert(all.take(round) =~= all);
    }
    read
}

// ---------------------------------------------------------------------------
// Bounding box
// ---------------------------------------------------------------------------

/// The union of the subregions in source pixels, rounded outwards: its origin
/// rounded down and its span rounded up.
#[derive(Clone, Copy, Debug, PartialEq, Eq)]
pub struct RegionSpan {
    pub x: i32,
    pub y: i32,
    pub w: i32,
    pub h: i32,
}

/// One axis of the box: the origin of the span, moved out by the border but not
/// below zero.
pub open spec fn padded_origin(origin: int) -> int {
    if origin - BBOX_BORDER < 0 {
        0
    } else {
        origin - BBOX_BORDER
    }
}

/// One axis of the box: the length of the span with a border on either side, at
/// least one pixel, cut off at the end of the source.
pub open spec fn padded_length(length: int, room: int) -> int {
    let padded = if length + 2 * BBOX_BORDER < 1 {
        1
    } else {
        length + 2 * BBOX_BORDER
    };
    if padded < room {
        padded
    } else {
        room
    }
}

/// The box around a span, if any of it lies within the source.
pub open spec fn padded_box(span: RegionSpan, source: Extent) -> Option<Rect> {
    let x = padded_origin(span.x as int);
    let y = padded_origin(span.y as int);
    let w = padded_length(span.w as int, source.w - x);
    let h = padded_length(span.h as int, source.h - y);
    if w > 0 && h > 0 {
        Some(Rect { x: x as i32, y: y as i32, w: w as i32, h: h as i32 })
    } else {
        None
    }
}

/// Compute the box in which the region mask is built.
pub fn region_bbox(span: RegionSpan, source: Extent) -> (bbox: Option<Rect>)
    requires
        span.x > i32::MIN,
        span.y > i32::MIN,
        span.w + 2 * BBOX_BORDER <= i32::MAX,
        span.h + 2 * BBOX_BORDER <= i32::MAX,
        source.w >= 0,
        source.h >= 0,
    ensures
        bbox == padded_box(span, source),
{
    let x: i32 = if span.x - BBOX_BORDER < 0 { 0 } else { span.x - BBOX_BORDER };
    let y: i32 = if span.y - BBOX_BORDER < 0 { 0 } else { span.y - BBOX_BORDER };
    let padded_w: i32 = if span.w + 2 * BBOX_BORDER < 1 { 1 } else { span.w + 2 * BBOX_BORDER };
    let padded_h: i32 = if span.h + 2 * BBOX_BORDER < 1 { 1 } else { span.h + 2 * BBOX_BORDER };
    let w: i32 = if padded_w < source.w - x { padded_w } else { source.w - x };
    let h: i32 = if padded_h < source.h - y { padded_h } else { source.h - y };
    if w > 0 && h > 0 {
        Some(Rect { x, y, w, h })
    } else {
        None
    }
}

/// The box is not empty and lies within the source.
pub open spec fn bbox_within(bbox: Rect, source: Extent) -> bool {
    &&& 0 <= bbox.x && 0 < bbox.w && bbox.x + bbox.w <= source.w
    &&& 0 <= bbox.y && 0 < bbox.h && bbox.y + bbox.h <= source.h
}

/// The box of a region lies within the source, whatever the region.
pub proof fn law_bbox_within_source(span: RegionSpan, source: Extent)
    requires
        source.w >= 0,
        source.h >= 0,
    ensures
        padded_box(span, source) matches Some(bbox) ==> bbox_within(bbox, source),
{
}

// ---------------------------------------------------------------------------
// Encoding
// ---------------------------------------------------------------------------

/// Distance from the flooding and direction from the Poisson solution.
pub open spec fn encode_op(
    nearest: u32,
    solution: u32,
    target: u32,
    size: Extent,
    double_distance: i32,
) -> GpuOp {
    GpuOp::Draw(
        Draw {
            pass: Pass::Encode { output: size, double_distance },
            target,
            viewport: size,
            unit0: Some(Binding { texture: nearest, sampling: Sampling::Keep }),
            unit1: Some(Binding { texture: solution, sampling: Sampling::Clamped(Filter::Nearest) }),
            unit2: None,
            channels: Channels::All,
        },
    )
}

/// Encode distance and direction.
pub fn encode_output(
    ops: &mut Vec<GpuOp>,
    nearest: u32,
    solution: u32,
    target: u32,
    size: Extent,
    double_distance: i32,
)
    ensures
        final(ops)@ == old(ops)@.push(encode_op(nearest, solution, target, size, double_distance)),
{
    ops.push(
        GpuOp::Draw(
            Draw {
                pass: Pass::Encode { output: size, double_distance },
                target,
                viewport: size,
                unit0: Some(Binding { texture: nearest, sampling: Sampling::Keep }),
                unit1: Some(
                    Binding { texture: solution, sampling: Sampling::Clamped(Filter::Nearest) },
                ),
                unit2: None,
                channels: Channels::All,
            },
        ),
    );
}

/// The encoded direction, filtered into the texture that is kept.
pub open spec fn smooth_encoded_op(source: u32, target: u32, size: Extent) -> GpuOp {
    single_input_draw(
        Pass::Smooth { output: size },
        source,
        Sampling::Clamped(Filter::Linear),
        target,
        size,
    )
}

/// Filter the encoded direction.
pub fn smooth_encoded_output(ops: &mut Vec<GpuOp>, source: u32, target: u32, size: Extent)
    ensures
        final(ops)@ == old(ops)@.push(smooth_encoded_op(source, target, size)),
{
    push_single_input_draw(
        ops,
        Pass::Smooth { output: size },
        source,
        Sampling::Clamped(Filter::Linear),
        target,
        size,
    );
}

// ---------------------------------------------------------------------------
// Blit
// ---------------------------------------------------------------------------

/// The smallest rectangle around two.
pub open spec fn joined(a: Edges, b: Edges) -> Edges {
    Edges {
        x1: if a.x1 <= b.x1 { a.x1 } else { b.x1 },
        y1: if a.y1 <= b.y1 { a.y1 } else { b.y1 },
        x2: if a.x2 >= b.x2 { a.x2 } else { b.x2 },
        y2: if a.y2 >= b.y2 { a.y2 } else { b.y2 },
    }
}

/// The smallest rectangle around all of them.
pub open spec fn union_of(rects: Seq<Edges>) -> Edges
    recommends
        rects.len() > 0,
    decreases rects.len(),
{
    if rects.len() <= 1 {
        rects[0]
    } else {
        joined(union_of(rects.drop_last()), rects.last())
    }
}

/// The union reaches no further than its members do, on any side.
pub proof fn law_union_is_tight(rects: Seq<Edges>)
    requires
        rects.len() > 0,
    ensures
        forall|i: int| #![trigger rects[i]]
            0 <= i < rects.len() ==> {
                let u = union_of(rects);
                u.x1 <= rects[i].x1 && u.y1 <= rects[i].y1 && rects[i].x2 <= u.x2 && rects[i].y2
                    <= u.y2
            },
        exists|i: int| 0 <= i < rects.len() && (#[trigger] rects[i]).x1 == union_of(rects).x1,
        exists|i: int| 0 <= i < rects.len() && (#[trigger] rects[i]).y1 == union_of(rects).y1,
        exists|i: int| 0 <= i < rects.len() && (#[trigger] rects[i]).x2 == union_of(rects).x2,
        exists|i: int| 0 <= i < rects.len() && (#[trigger] rects[i]).y2 == union_of(rects).y2,
    decreases rects.len(),
{
    if rects.len() == 1 {
        assert(rects[0] == union_of(rects));
    } else {
        let front = rects.drop_last();
        let last = rects.len() - 1;
        law_union_is_tight(front);
        assert forall|i: int| #![trigger rects[i]] 0 <= i < rects.len() implies {
            let u = union_of(rects);
            u.x1 <= rects[i].x1 && u.y1 <= rects[i].y1 && rects[i].x2 <= u.x2 && rects[i].y2 <= u.y2
        } by {
            if i < last {
                assert(rects[i] == front[i]);
            }
        }
        let u = union_of(front);
        let a = choose|i: int| 0 <= i < front.len() && (#[trigger] front[i]).x1 == u.x1;
        let b = choose|i: int| 0 <= i < front.len() && (#[trigger] front[i]).y1 == u.y1;
        let c = choose|i: int| 0 <= i < front.len() && (#[trigger] front[i]).x2 == u.x2;
        let d = choose|i: int| 0 <= i < front.len() && (#[trigger] front[i]).y2 == u.y2;
        assert(rects[a] == front[a] && rects[b] == front[b] && rects[c] == front[c] && rects[d]
            == front[d]);
        assert(rects[last] == rects.last());
    }
}

fn compute_union(rects: &Vec<Edges>) -> (u: Edges)
    requires
        rects@.len() > 0,
    ensures
        u == union_of(rects@),
{
    let mut u: Edges = rects[0];
    let mut i: usize = 1;
    assert(union_of(rects@.take(1)) == rects@[0]);
    while i < rects.len()
        invariant
            1 <= i <= rects@.len(),
            u == union_of(rects@.take(i as int)),
        decreases rects@.len() - i,
    {
        let r: Edges = rects[i];
        u = Edges {
            x1: if u.x1 <= r.x1 { u.x1 } else { r.x1 },
            y1: if u.y1 <= r.y1 { u.y1 } else { r.y1 },
            x2: if u.x2 >= r.x2 { u.x2 } else { r.x2 },
            y2: if u.y2 >= r.y2 { u.y2 } else { r.y2 },
        };
        proof {
            let next = rects@.take(i + 1);
            assert(next.drop_last() =~= rects@.take(i as int));
            assert(next.last() == r);
        }
        i = i + 1;
    }
    assert(rects@.take(i as int) =~= rects@);
    u
}

/// Where the encoded box goes: the union of the rectangles, or the box without
/// its border when there are none, cut off at the bounds of the source.
pub open spec fn blit_destination(rects: Seq<Edges>, bbox: Rect, source: Extent) -> Edges {
    let u = if rects.len() == 0 {
        Edges {
            x1: (bbox.x + BBOX_BORDER) as i32,
            y1: (bbox.y + BBOX_BORDER) as i32,
            x2: (bbox.x + bbox.w - BBOX_BORDER) as i32,
            y2: (bbox.y + bbox.h - BBOX_BORDER) as i32,
        }
    } else {
        union_of(rects)
    };
    Edges {
        x1: if u.x1 < 0 { 0 } else { u.x1 },
        y1: if u.y1 < 0 { 0 } else { u.y1 },
        x2: if u.x2 > source.w { source.w } else { u.x2 },
        y2: if u.y2 > source.h { source.h } else { u.y2 },
    }
}

/// The copy of the encoded box, without its border, onto the mask.
pub open spec fn blit_op(
    encoded: u32,
    mask: u32,
    rects: Seq<Edges>,
    bbox: Rect,
    source: Extent,
) -> GpuOp {
    GpuOp::Blit {
        source: encoded,
        target: mask,
        from: Edges {
            x1: BBOX_BORDER,
            y1: BBOX_BORDER,
            x2: (bbox.w - BBOX_BORDER) as i32,
            y2: (bbox.h - BBOX_BORDER) as i32,
        },
        to: blit_destination(rects, bbox, source),
    }
}

/// Copy the encoded box onto the mask.
pub fn blit_to_mask_texture(
    ops: &mut Vec<GpuOp>,
    encoded: u32,
    mask: u32,
    rects: &Vec<Edges>,
    bbox: Rect,
    source: Extent,
)
    requires
        bbox_within(bbox, source),
    ensures
        final(ops)@ == old(ops)@.push(blit_op(encoded, mask, rects@, bbox, source)),
{
    let u: Edges = if rects.len() == 0 {
        Edges {
            x1: bbox.x + BBOX_BORDER,
            y1: bbox.y + BBOX_BORDER,
            x2: bbox.x + bbox.w - BBOX_BORDER,
            y2: bbox.y + bbox.h - BBOX_BORDER,
        }
    } else {
        compute_union(rects)
    };
    ops.push(
        GpuOp::Blit {
            source: encoded,
            target: mask,
            from: Edges {
                x1: BBOX_BORDER,
                y1: BBOX_BORDER,
                x2: bbox.w - BBOX_BORDER,
                y2: bbox.h - BBOX_BORDER,
            },
            to: Edges {
                x1: if u.x1 < 0 { 0 } else { u.x1 },
                y1: if u.y1 < 0 { 0 } else { u.y1 },
                x2: if u.x2 > source.w { source.w } else { u.x2 },
                y2: if u.y2 > source.h { source.h } else { u.y2 },
            },
        },
    );
}

/// The encoded box never lands outside the source.
pub proof fn law_blit_stays_within_source(rects: Seq<Edges>, bbox: Rect, source: Extent)
    requires
        bbox_within(bbox, source),
    ensures
        blit_destination(rects, bbox, source).x1 >= 0,
        blit_destination(rects, bbox, source).y1 >= 0,
        blit_destination(rects, bbox, source).x2 <= source.w,
        blit_destination(rects, bbox, source).y2 <= source.h,
{
}

// ---------------------------------------------------------------------------
// The region mask
// ---------------------------------------------------------------------------

/// Where a region mask goes and what it is made from.
#[derive(Clone, Copy, Debug, PartialEq, Eq)]
pub struct RegionMask {
    /// The mask texture to write.
    pub mask: u32,
    /// The box in which the mask is built.
    pub bbox: Rect,
    /// The size of the source, and of the mask texture.
    pub source: Extent,
    /// The texture that holds the rectangles.
    pub rects_texture: u32,
    /// The number of rectangles.
    pub instances: i32,
}

impl RegionMask {
    pub open spec fn size(self) -> Extent {
        Extent { w: self.bbox.w, h: self.bbox.h }
    }
}

/// The shorter side of a box, at least one pixel: twice the distance that the
/// mask and the direction field are normalized by.
pub open spec fn double_distance(size: Extent) -> int {
    let shorter = if size.w <= size.h { size.w } else { size.h };
    if shorter < 1 { 1 } else { shorter as int }
}

/// The schedule of the Poisson solve.
pub open spec fn poisson_schedule() -> Schedule {
    Schedule {
        pre: JACOBI_SWEEPS,
        post: JACOBI_SWEEPS,
        omega: F32Bits { bits: JACOBI_OMEGA_BITS },
    }
}

/// The side that holds the solution after a number of V-cycles.
pub open spec fn solve_side(depth: nat, cycles: nat) -> Side
    decreases cycles,
{
    if cycles == 0 {
        Side::A
    } else {
        v_cycle_side(depth, 0, poisson_schedule(), solve_side(depth, (cycles - 1) as nat))
    }
}

/// A number of V-cycles, each from the side where the one before it ended.
pub open spec fn solve_ops(pyramid: Seq<MultigridLevel>, cycles: nat) -> Seq<GpuOp>
    decreases cycles,
{
    if cycles == 0 {
        seq![]
    } else {
        solve_ops(pyramid, (cycles - 1) as nat) + v_cycle_ops(
            pyramid,
            0,
            poisson_schedule(),
            solve_side(pyramid.len(), (cycles - 1) as nat),
        )
    }
}

/// Build the encoded field of a box anew: the binary mask, the flooding, the
/// Poisson solve, the encoding and its filter.
pub open spec fn encode_field_ops(t: &JfaTextures, r: RegionMask) -> Seq<GpuOp> {
    let size = r.size();
    let pyramid = t.pyramid@;
    let distance = double_distance(size) as i32;
    let nearest = jfa_outcome(t.jfa_a, t.jfa_b, size);
    let scratch = if nearest == t.jfa_a {
        t.jfa_b
    } else {
        t.jfa_a
    };
    binary_mask_ops(t.bin, r.rects_texture, r.instances, r.bbox) + jfa_init_ops(
        t.bin,
        t.jfa_a,
        size,
    ) + jfa_step_ops(t.jfa_a, t.jfa_b, size) + seq![
        rhs_level0_op(t.bin, pyramid[0].rhs, pyramid[0].size, distance),
    ] + restrict_mask_ops(pyramid) + zero_guess_ops(pyramid) + solve_ops(pyramid, V_CYCLES as nat)
        + seq![
        encode_op(
            nearest,
            pyramid[0].solution(solve_side(pyramid.len(), V_CYCLES as nat)),
            scratch,
            size,
            distance,
        ),
        smooth_encoded_op(scratch, t.encoded, size),
    ]
}

/// The encoded field goes onto the mask, which is then sampled linearly.
pub open spec fn place_field_ops(t: &JfaTextures, r: RegionMask, rects: Seq<Edges>) -> Seq<GpuOp> {
    seq![
        blit_op(t.encoded, r.mask, rects, r.bbox, r.source),
        GpuOp::Sample { texture: r.mask, sampling: Sampling::Clamped(Filter::Linear) },
    ]
}

/// The operations of a region mask.
///
/// When the encoded field is still valid it is only placed anew, over a mask from
/// which the box of its former place, or everything, was cleared. Otherwise the
/// mask is cleared and, if the programs are there, the field is built and placed.
pub open spec fn region_mask_ops(
    t: &JfaTextures,
    r: RegionMask,
    rects: Seq<Edges>,
    cache_hit: bool,
    previous: Option<Rect>,
    programs: bool,
) -> Seq<GpuOp> {
    let cleared = seq![GpuOp::Clear { target: r.mask, region: None }];
    if cache_hit {
        (match previous {
            Some(region) => clear_region_ops(r.mask, region),
            None => cleared,
        }) + place_field_ops(t, r, rects)
    } else if programs {
        cleared + encode_field_ops(t, r) + place_field_ops(t, r, rects)
    } else {
        cleared
    }
}

/// Run the Poisson solve; the result is the texture that holds the solution.
fn solve_poisson(ops: &mut Vec<GpuOp>, pyramid: &Vec<MultigridLevel>) -> (solution: u32)
    requires
        1 <= pyramid@.len() <= MAX_MULTIGRID_LEVELS,
    ensures
        final(ops)@ == old(ops)@ + solve_ops(pyramid@, V_CYCLES as nat),
        solution == pyramid@[0].solution(solve_side(pyramid@.len(), V_CYCLES as nat)),
{
    let schedule: Schedule = Schedule {
        pre: JACOBI_SWEEPS,
        post: JACOBI_SWEEPS,
        omega: F32Bits { bits: JACOBI_OMEGA_BITS },
    };
    let mut side: Side = Side::A;
    let mut cycle: usize = 0;
    assert(ops@ =~= old(ops)@ + solve_ops(pyramid@, 0));
    while cycle < V_CYCLES
        invariant
            1 <= pyramid@.len() <= MAX_MULTIGRID_LEVELS,
            schedule == poisson_schedule(),
            cycle <= V_CYCLES,
            side == solve_side(pyramid@.len(), cycle as nat),
            ops@ == old(ops)@ + solve_ops(pyramid@, cycle as nat),
        decreases V_CYCLES - cycle,
    {
        let ghost before = ops@;
        side = run_v_cycle(ops, pyramid, schedule, side);
        assert(ops@ =~= old(ops)@ + solve_ops(pyramid@, (cycle + 1) as nat));
        cycle = cycle + 1;
    }
    pyramid[0].solution_texture(side)
}

/// Build the encoded field of a box anew.
fn encode_field(ops: &mut Vec<GpuOp>, t: &JfaTextures, r: RegionMask)
    requires
        t.wf(),
    ensures
        final(ops)@ == old(ops)@ + encode_field_ops(t, r),
{
    let size: Extent = Extent { w: r.bbox.w, h: r.bbox.h };
    render_binary_mask(ops, t.bin, r.rects_texture, r.instances, r.bbox);
    jfa_init_pass(ops, t.bin, t.jfa_a, size);
    let nearest: u32 = run_jfa_steps(ops, t.jfa_a, t.jfa_b, size);
    let shorter: i32 = if size.w <= size.h { size.w } else { size.h };
    let distance: i32 = if shorter < 1 { 1 } else { shorter };
    init_rhs_level0(ops, t.bin, t.pyramid[0].rhs, t.pyramid[0].size, distance);
    restrict_mask_pyramid(ops, &t.pyramid);
    clear_solutions(ops, &t.pyramid);
    let solution: u32 = solve_poisson(ops, &t.pyramid);
    // Encode into the flooding texture that does not hold the outcome.
    let scratch: u32 = if nearest == t.jfa_a { t.jfa_b } else { t.jfa_a };
    encode_output(ops, nearest, solution, scratch, size, distance);
    smooth_encoded_output(ops, scratch, t.encoded, size);
    assert(ops@ =~= old(ops)@ + encode_field_ops(t, r));
}

/// Draw the region mask.
pub fn render_jfa_mask(
    ops: &mut Vec<GpuOp>,
    t: &JfaTextures,
    r: RegionMask,
    rects: &Vec<Edges>,
    cache_hit: bool,
    previous: Option<Rect>,
    programs: bool,
)
    requires
        t.wf(),
        bbox_within(r.bbox, r.source),
    ensures
        final(ops)@ == old(ops)@ + region_mask_ops(t, r, rects@, cache_hit, previous, programs),
{
    if cache_hit {
        match previous {
            Some(region) => clear_mask_texture_region(ops, r.mask, region),
            None => clear_mask_texture(ops, r.mask),
        }
    } else {
        clear_mask_texture(ops, r.mask);
        if !programs {
            assert(ops@ =~= old(ops)@ + region_mask_ops(t, r, rects@, cache_hit, previous, programs));
            return;
        }
        encode_field(ops, t, r);
    }
    blit_to_mask_texture(ops, t.encoded, r.mask, rects, r.bbox, r.source);
    ops.push(GpuOp::Sample { texture: r.mask, sampling: Sampling::Clamped(Filter::Linear) });
    assert(ops@ =~= old(ops)@ + region_mask_ops(t, r, rects@, cache_hit, previous, programs));
}

// ---------------------------------------------------------------------------
// Laws of the region mask
// ---------------------------------------------------------------------------

/// When the encoded field is still valid, nothing is built anew: no texture but
/// the mask is written, and of the mask only the box of the former place is
/// cleared where it is known.
pub proof fn law_valid_field_is_only_placed(
    t: &JfaTextures,
    r: RegionMask,
    rects: Seq<Edges>,
    previous: Option<Rect>,
    programs: bool,
    texture: u32,
)
    requires
        texture != r.mask,
    ensures
        plan_leaves(region_mask_ops(t, r, rects, true, previous, programs), texture),
        previous matches Some(region) ==> region_mask_ops(t, r, rects, true, previous, programs)
            == clear_region_ops(r.mask, region) + place_field_ops(t, r, rects),
        region_mask_ops(t, r, rects, true, previous, programs).len() <= 3,
{
}

/// No texture of the region mask serves twice.
pub open spec fn field_distinct(t: &JfaTextures, r: RegionMask) -> bool {
    &&& pyramid_distinct(t.pyramid@)
    &&& t.bin != t.jfa_a && t.bin != t.jfa_b && t.bin != t.encoded && t.bin != r.rects_texture
    &&& t.jfa_a != t.jfa_b && t.jfa_a != t.encoded && t.jfa_b != t.encoded
    &&& t.encoded != r.mask
    &&& forall|k: int| #![trigger t.pyramid@[k]]
        0 <= k < t.pyramid@.len() ==> !level_has(t.pyramid@[k], t.bin) && !level_has(
            t.pyramid@[k],
            t.jfa_a,
        ) && !level_has(t.pyramid@[k], t.jfa_b)
}

proof fn lemma_solve_free_of_feedback(pyramid: Seq<MultigridLevel>, cycles: nat)
    requires
        pyramid.len() >= 1,
        pyramid_distinct(pyramid),
    ensures
        plan_free_of_feedback(solve_ops(pyramid, cycles)),
    decreases cycles,
{
    if cycles > 0 {
        let before = (cycles - 1) as nat;
        let start = solve_side(pyramid.len(), before);
        lemma_solve_free_of_feedback(pyramid, before);
        law_v_cycle_free_of_feedback(pyramid, poisson_schedule(), start);
        lemma_free_of_feedback_concat(
            solve_ops(pyramid, before),
            v_cycle_ops(pyramid, 0, poisson_schedule(), start),
        );
    }
}

proof fn lemma_encode_free_of_feedback(t: &JfaTextures, r: RegionMask)
    requires
        t.wf(),
        field_distinct(t, r),
    ensures
        plan_free_of_feedback(encode_field_ops(t, r)),
{
    let size = r.size();
    let pyramid = t.pyramid@;
    let distance = double_distance(size) as i32;
    let nearest = jfa_outcome(t.jfa_a, t.jfa_b, size);
    let scratch = if nearest == t.jfa_a {
        t.jfa_b
    } else {
        t.jfa_a
    };
    let side = solve_side(pyramid.len(), V_CYCLES as nat);
    let o1 = binary_mask_ops(t.bin, r.rects_texture, r.instances, r.bbox);
    let o2 = jfa_init_ops(t.bin, t.jfa_a, size);
    let o3 = jfa_step_ops(t.jfa_a, t.jfa_b, size);
    let o4 = seq![rhs_level0_op(t.bin, pyramid[0].rhs, pyramid[0].size, distance)];
    let o5 = restrict_mask_ops(pyramid);
    let o6 = zero_guess_ops(pyramid);
    let o7 = solve_ops(pyramid, V_CYCLES as nat);
    let o8 = seq![
        encode_op(nearest, pyramid[0].solution(side), scratch, size, distance),
        smooth_encoded_op(scratch, t.encoded, size),
    ];
    assert(level_has(pyramid[0], pyramid[0].rhs));
    assert(level_has(pyramid[0], pyramid[0].solution(side)));
    assert(plan_free_of_feedback(o3)) by {
        assert forall|i: int| 0 <= i < o3.len() implies (#[trigger] o3[i]).free_of_feedback() by {
            law_jfa_steps_alternate(t.jfa_a, t.jfa_b, size, i);
        }
    }
    assert(plan_free_of_feedback(o5)) by {
        assert forall|i: int| 0 <= i < o5.len() implies (#[trigger] o5[i]).free_of_feedback() by {
            assert(level_has(pyramid[i], pyramid[i].rhs));
            assert(level_has(pyramid[i + 1], pyramid[i + 1].rhs));
        }
    }
    lemma_solve_free_of_feedback(pyramid, V_CYCLES as nat);
    lemma_free_of_feedback_concat(o1, o2);
    lemma_free_of_feedback_concat(o1 + o2, o3);
    lemma_free_of_feedback_concat(o1 + o2 + o3, o4);
    lemma_free_of_feedback_concat(o1 + o2 + o3 + o4, o5);
    lemma_free_of_feedback_concat(o1 + o2 + o3 + o4 + o5, o6);
    lemma_free_of_feedback_concat(o1 + o2 + o3 + o4 + o5 + o6, o7);
    lemma_free_of_feedback_concat(o1 + o2 + o3 + o4 + o5 + o6 + o7, o8);
}

/// No operation of the region mask reads what it writes, as long as no texture
/// serves twice.
pub proof fn law_region_mask_free_of_feedback(
    t: &JfaTextures,
    r: RegionMask,
    rects: Seq<Edges>,
    cache_hit: bool,
    previous: Option<Rect>,
    programs: bool,
)
    requires
        t.wf(),
        field_distinct(t, r),
    ensures
        plan_free_of_feedback(region_mask_ops(t, r, rects, cache_hit, previous, programs)),
{
    let cleared = seq![GpuOp::Clear { target: r.mask, region: None }];
    let placed = place_field_ops(t, r, rects);
    if cache_hit {
        let clear = match previous {
            Some(region) => clear_region_ops(r.mask, region),
            None => cleared,
        };
        lemma_free_of_feedback_concat(clear, placed);
    } else if programs {
        lemma_encode_free_of_feedback(t, r);
        lemma_free_of_feedback_concat(cleared, encode_field_ops(t, r));
        lemma_free_of_feedback_concat(cleared + encode_field_ops(t, r), placed);
    }
}

} // verus!
