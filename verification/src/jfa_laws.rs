//! Laws of the region mask: what each stage of it reads and writes.

use vstd::prelude::*;

use crate::float_bits::F32Bits;
use crate::gpu::{Binding, Draw, Edges, Extent, Filter, GpuOp, Pass, Rect, Sampling};
use crate::jfa::{
    bbox_within, binary_mask_ops, border_ops, clears_pixel, double_distance, encode_field_ops,
    encode_op, field_distinct, is_depth, jfa_init_ops, jfa_outcome, jfa_rounds, jfa_step_length,
    jfa_step_op, jfa_step_ops, law_border_is_exterior, law_jfa_steps_halve_down_to_one,
    law_union_is_tight, lemma_halved_step, level_size, padded_box, place_field_ops,
    poisson_schedule, read_in_round, region_mask_ops, smooth_encoded_op, solve_ops, solve_side,
    union_of, JfaTextures, RegionMask, RegionSpan, V_CYCLES,
};
use crate::multigrid::{
    correction_in_place, guess_in_place, law_v_cycle_visits_every_level,
    law_v_cycle_works_on_the_latest, lemma_level_states_concat, lemma_level_state_concat, level_has,
    level_state, level_states, op_in_place, pyramid_distinct, residual_in_place, restrict_mask_ops,
    rhs_level0_op, sweep_in_place, untouched, v_cycle_ops, v_cycle_side, zero_guess_ops, LevelState,
    MultigridLevel, Schedule, Side,
};

verus! {

// ---------------------------------------------------------------------------
// The binary mask
// ---------------------------------------------------------------------------

/// The binary mask of a box starts from nothing and is drawn once, over the whole of
/// the box, from the texture of the rectangles, one instance for each. After that
/// exactly the outermost pixels are cleared again.
pub proof fn law_binary_mask_keeps_its_border_clear(
    target: u32,
    rects_texture: u32,
    instances: i32,
    bbox: Rect,
    x: int,
    y: int,
)
    requires
        0 <= x < bbox.w,
        0 <= y < bbox.h,
    ensures
        ({
            let ops = binary_mask_ops(target, rects_texture, instances, bbox);
            &&& ops[0] == (GpuOp::Clear { target, region: None })
            &&& ops[1] matches GpuOp::Draw(d) && d.target == target && d.pass == (
            Pass::BinaryMask {
                output: Extent { w: bbox.w, h: bbox.h },
                origin_x: bbox.x,
                origin_y: bbox.y,
                instances,
            }) && d.viewport == (Extent { w: bbox.w, h: bbox.h }) && (d.unit1 matches Some(b)
                && b.texture == rects_texture)
            &&& forall|i: int| 2 <= i < ops.len() ==> !(#[trigger] ops[i] is Draw)
            &&& (exists|i: int|
                2 <= i < ops.len() && clears_pixel(#[trigger] ops[i], target, x, y)) <==> (x == 0
                || y == 0 || x == bbox.w - 1 || y == bbox.h - 1)
            &&& ops[ops.len() - 1] == (GpuOp::Sample {
                texture: target,
                sampling: Sampling::Clamped(Filter::Nearest),
            })
        }),
{
    let size = Extent { w: bbox.w, h: bbox.h };
    let ops = binary_mask_ops(target, rects_texture, instances, bbox);
    let border = border_ops(target, size);
    law_border_is_exterior(target, size, x, y);
    assert(border.len() == 4);
    assert forall|i: int| 0 <= i < 4 implies ops[i + 2] == #[trigger] border[i] by {}
    if x == 0 || y == 0 || x == bbox.w - 1 || y == bbox.h - 1 {
        let i = choose|i: int|
            0 <= i < border.len() && clears_pixel(#[trigger] border[i], target, x, y);
        assert(clears_pixel(ops[i + 2], target, x, y));
    }
    if exists|i: int| 2 <= i < ops.len() && clears_pixel(#[trigger] ops[i], target, x, y) {
        let i = choose|i: int|
            2 <= i < ops.len() && clears_pixel(#[trigger] ops[i], target, x, y);
        assert(i < 6);
        assert(ops[i] == border[i - 2]);
        assert(clears_pixel(border[i - 2], target, x, y));
    }
}

// ---------------------------------------------------------------------------
// The flooding
// ---------------------------------------------------------------------------

/// The steps of a flooding as they are drawn: the first spans the largest power of
/// two that fits the longer side of the box, each further one half of the one before
/// it, and the last a single pixel; all of them cover the whole of the box.
pub proof fn law_flooding_draws_halve_down_to_one(
    initial: u32,
    scratch: u32,
    size: Extent,
    round: int,
)
    requires
        size.w >= 1,
        size.h >= 1,
        0 <= round < jfa_step_ops(initial, scratch, size).len(),
    ensures
        ({
            let ops = jfa_step_ops(initial, scratch, size);
            let longer = if size.w >= size.h { size.w } else { size.h };
            &&& ops[round] matches GpuOp::Draw(d) && d.viewport == size && (d.pass matches
                Pass::JfaStep { output, step } && output == size && {
                &&& round == 0 ==> step <= longer < 2 * step
                &&& round == ops.len() - 1 ==> step == 1
                &&& round < ops.len() - 1 ==> (ops[round + 1] matches GpuOp::Draw(e) && (
                e.pass matches Pass::JfaStep { step: next, .. } && step == 2 * next))
            })
        }),
{
    law_jfa_steps_halve_down_to_one(size, round);
    law_jfa_steps_halve_down_to_one(size, 0);
    let n = jfa_rounds(size) as int;
    lemma_step_lengths_fit(size, round);
    if round + 1 < n {
        lemma_step_lengths_fit(size, round + 1);
    }
}

proof fn lemma_step_lengths_fit(size: Extent, round: int)
    requires
        size.w >= 1,
        size.h >= 1,
        0 <= round < jfa_rounds(size),
    ensures
        1 <= jfa_step_length(size, round) <= i32::MAX,
    decreases round,
{
    law_jfa_steps_halve_down_to_one(size, round);
    vstd::arithmetic::power2::lemma_pow2_pos((jfa_rounds(size) - 1 - round) as nat);
    if round > 0 {
        lemma_step_lengths_fit(size, round - 1);
        law_jfa_steps_halve_down_to_one(size, round - 1);
    }
}

// ---------------------------------------------------------------------------
// The stages of the field
// ---------------------------------------------------------------------------

/// The operation is a draw of the given kind.
pub open spec fn draws_kind(op: GpuOp, kind: spec_fn(Pass) -> bool) -> bool {
    op matches GpuOp::Draw(d) && kind(d.pass)
}

/// At an operation of a plan the texture holds what the last draw of a kind wrote:
/// nothing has written it since.
pub open spec fn holds_last(
    plan: Seq<GpuOp>,
    at: int,
    texture: u32,
    kind: spec_fn(Pass) -> bool,
) -> bool {
    exists|i: int|
        #![trigger plan[i]]
        0 <= i < at && draws_kind(plan[i], kind) && plan[i].writes(texture) && (forall|k: int|
            i < k < at ==> !draws_kind(#[trigger] plan[k], kind) && !plan[k].writes(texture))
}

/// Seeds and steps of the flooding.
pub open spec fn flooding() -> spec_fn(Pass) -> bool {
    |p: Pass| p is JfaInit || p is JfaStep
}

/// Right-hand sides that are written before the solve.
pub open spec fn restricting() -> spec_fn(Pass) -> bool {
    |p: Pass| p is PoissonRhs || p is RestrictMask
}

/// The encoding.
pub open spec fn encoding() -> spec_fn(Pass) -> bool {
    |p: Pass| p is Encode
}

/// The filter of the encoding.
pub open spec fn filtering() -> spec_fn(Pass) -> bool {
    |p: Pass| p is Smooth
}

/// The place of a pass among the stages that build the field.
pub open spec fn stage(pass: Pass) -> int {
    match pass {
        Pass::BinaryMask { .. } => 0,
        Pass::JfaInit { .. } => 1,
        Pass::JfaStep { .. } => 2,
        Pass::PoissonRhs { .. } => 3,
        Pass::RestrictMask { .. } => 4,
        Pass::Jacobi { .. } | Pass::ResidualRestrict { .. } | Pass::Prolongate => 5,
        Pass::Encode { .. } => 6,
        Pass::Smooth { .. } => 7,
        _ => 8,
    }
}

/// The schedule of the Poisson solve: three sweeps on either side of a correction,
/// damped by 0.8.
pub open spec fn three_sweeps() -> Schedule {
    Schedule { pre: 3, post: 3, omega: F32Bits { bits: 0x3f4c_cccd } }
}

/// No level has been touched.
pub open spec fn no_counts(first: Seq<LevelState>) -> bool {
    forall|k: int|
        0 <= k < first.len() ==> (#[trigger] first[k]).sweeps == 0 && first[k].residuals == 0
            && first[k].corrections == 0
}

/// The shorter side of the box, at least one pixel.
pub open spec fn shorter_side(bbox: Rect) -> int {
    if bbox.w < 1 || bbox.h < 1 {
        1
    } else if bbox.w <= bbox.h {
        bbox.w as int
    } else {
        bbox.h as int
    }
}

/// A draw that builds the field reads what the stages before it left for it.
pub open spec fn draw_is_fed(
    plan: Seq<GpuOp>,
    at: int,
    d: Draw,
    t: &JfaTextures,
    r: RegionMask,
    first: Seq<LevelState>,
) -> bool {
    let size = Extent { w: r.bbox.w, h: r.bbox.h };
    let now = level_states(plan.take(at), t.pyramid@, first);
    match d.pass {
        Pass::BinaryMask { instances, origin_x, origin_y, output } => {
            &&& d.target == t.bin
            &&& d.unit1 matches Some(b) && b.texture == r.rects_texture
            &&& instances == r.instances
            &&& origin_x == r.bbox.x && origin_y == r.bbox.y && output == size
            &&& d.viewport == size && d.channels is All
        },
        Pass::JfaInit { output } => {
            &&& output == size && d.viewport == size && d.channels is All
            &&& d.unit0 matches Some(b) && b.texture == t.bin
            &&& d.target == t.jfa_a || d.target == t.jfa_b
        },
        Pass::JfaStep { output, .. } => {
            &&& output == size && d.viewport == size && d.channels is All
            &&& d.unit0 matches Some(b) && holds_last(plan, at, b.texture, flooding())
                && b.sampling == Sampling::Filtered(Filter::Nearest)
            &&& d.target == t.jfa_a || d.target == t.jfa_b
        },
        Pass::PoissonRhs { double_distance } => {
            &&& d.unit0 == Some(
                Binding { texture: t.bin, sampling: Sampling::Filtered(Filter::Nearest) },
            )
            &&& d.target == t.pyramid@[0].rhs
            &&& d.viewport == size && d.channels is All
            &&& double_distance == shorter_side(r.bbox)
        },
        Pass::RestrictMask { texel } => exists|k: int|
            #![trigger t.pyramid@[k]]
            {
                &&& 0 <= k < t.pyramid@.len() - 1
                &&& d.unit0 == Some(
                    Binding {
                        texture: t.pyramid@[k].rhs,
                        sampling: Sampling::Filtered(Filter::Linear),
                    },
                )
                &&& d.channels is All
                &&& holds_last(plan, at, t.pyramid@[k].rhs, restricting())
                &&& d.target == t.pyramid@[k + 1].rhs
                &&& d.viewport == t.pyramid@[k + 1].size
                &&& texel == t.pyramid@[k].size
            },
        Pass::Jacobi { .. } | Pass::ResidualRestrict { .. } | Pass::Prolongate => op_in_place(
            plan[at],
            t.pyramid@,
            three_sweeps(),
            now,
        ),
        Pass::Encode { output, double_distance } => {
            &&& output == size && d.viewport == size && d.channels is All
            &&& double_distance == shorter_side(r.bbox)
            &&& d.unit0 matches Some(b) && holds_last(plan, at, b.texture, flooding())
            &&& d.unit1 == Some(
                Binding { texture: now[0].newest, sampling: Sampling::Clamped(Filter::Nearest) },
            )
            &&& now[0].sweeps == 6
            &&& d.target == t.jfa_a || d.target == t.jfa_b
        },
        Pass::Smooth { output } => {
            &&& output == size && d.viewport == size && d.channels is All
            &&& d.unit0 matches Some(b) && holds_last(plan, at, b.texture, encoding())
                && b.sampling == Sampling::Clamped(Filter::Linear)
            &&& d.target == t.encoded
        },
        _ => false,
    }
}

/// The plan of a field that is built anew, in the order of its parts.
spec fn before_solve(t: &JfaTextures, r: RegionMask) -> Seq<GpuOp> {
    seq![GpuOp::Clear { target: r.mask, region: None }] + binary_mask_ops(
        t.bin,
        r.rects_texture,
        r.instances,
        r.bbox,
    ) + jfa_init_ops(t.bin, t.jfa_a, r.size()) + jfa_step_ops(t.jfa_a, t.jfa_b, r.size()) + seq![
        rhs_level0_op(
            t.bin,
            t.pyramid@[0].rhs,
            t.pyramid@[0].size,
            double_distance(r.size()) as i32,
        ),
    ] + restrict_mask_ops(t.pyramid@)
}

proof fn lemma_counts_stay(ops: Seq<GpuOp>, level: MultigridLevel, first: LevelState)
    requires
        forall|i: int|
            0 <= i < ops.len() ==> (#[trigger] ops[i] matches GpuOp::Draw(d) ==> !(d.pass is Jacobi)
                && !(d.pass is ResidualRestrict) && !(d.pass is Prolongate)),
    ensures
        level_state(ops, level, first).sweeps == first.sweeps,
        level_state(ops, level, first).residuals == first.residuals,
        level_state(ops, level, first).corrections == first.corrections,
    decreases ops.len(),
{
    if ops.len() > 0 {
        assert forall|i: int| 0 <= i < ops.drop_last().len() implies (
        #[trigger] ops.drop_last()[i] matches GpuOp::Draw(d) ==> !(d.pass is Jacobi) && !(
        d.pass is ResidualRestrict) && !(d.pass is Prolongate)) by {
            assert(ops.drop_last()[i] == ops[i]);
        }
        lemma_counts_stay(ops.drop_last(), level, first);
        assert(ops[ops.len() - 1] == ops.last());
    }
}

/// The first of the clears is that of the finest level, and none that follows it
/// touches that level.
proof fn lemma_zero_guess(pyramid: Seq<MultigridLevel>, n: int, first: LevelState)
    requires
        pyramid_distinct(pyramid),
        1 <= n <= pyramid.len(),
    ensures
        level_state(zero_guess_ops(pyramid).take(n), pyramid[0], first).newest == pyramid[0].u_a,
    decreases n,
{
    let ops = zero_guess_ops(pyramid).take(n);
    assert(ops.drop_last() =~= zero_guess_ops(pyramid).take(n - 1));
    assert(ops.last() == (GpuOp::Clear { target: pyramid[n - 1].u_a, region: None }));
    if n > 1 {
        lemma_zero_guess(pyramid, n - 1, first);
        assert(level_has(pyramid[n - 1], pyramid[n - 1].u_a));
        assert(!level_has(pyramid[0], pyramid[n - 1].u_a));
    }
}

proof fn lemma_states_before_solve(t: &JfaTextures, r: RegionMask, first: Seq<LevelState>)
    requires
        t.wf(),
        field_distinct(t, r),
        first.len() == t.pyramid@.len(),
        no_counts(first),
    ensures
        untouched(
            t.pyramid@,
            Side::A,
            level_states(before_solve(t, r) + zero_guess_ops(t.pyramid@), t.pyramid@, first),
        ),
{
    let pyramid = t.pyramid@;
    let a = before_solve(t, r);
    let b = zero_guess_ops(pyramid);
    let ops = a + b;
    assert forall|i: int| 0 <= i < ops.len() implies (#[trigger] ops[i] matches GpuOp::Draw(d) ==> !(
    d.pass is Jacobi) && !(d.pass is ResidualRestrict) && !(d.pass is Prolongate)) by {
        if i < a.len() {
            lemma_before_solve_kinds(t, r, i);
            assert(ops[i] == a[i]);
        } else {
            assert(ops[i] == b[i - a.len()]);
        }
    }
    let end = level_states(ops, pyramid, first);
    assert forall|k: int| 0 <= k < end.len() implies (#[trigger] end[k]).sweeps == 0
        && end[k].residuals == 0 && end[k].corrections == 0 by {
        lemma_counts_stay(ops, pyramid[k], first[k]);
        assert(first[k].sweeps == 0);
    }
    lemma_level_state_concat(a, b, pyramid[0], first[0]);
    assert(b.take(pyramid.len() as int) =~= b);
    lemma_zero_guess(pyramid, pyramid.len() as int, level_state(a, pyramid[0], first[0]));
}

/// The stages that come before the solve.
proof fn lemma_before_solve_kinds(t: &JfaTextures, r: RegionMask, i: int)
    requires
        0 <= i < before_solve(t, r).len(),
    ensures
        before_solve(t, r)[i] matches GpuOp::Draw(d) ==> stage(d.pass) <= 4,
{
    let size = r.size();
    let p0 = seq![GpuOp::Clear { target: r.mask, region: None }];
    let p1 = binary_mask_ops(t.bin, r.rects_texture, r.instances, r.bbox);
    let p2 = jfa_init_ops(t.bin, t.jfa_a, size);
    let p3 = jfa_step_ops(t.jfa_a, t.jfa_b, size);
    let p4 = seq![
        rhs_level0_op(
            t.bin,
            t.pyramid@[0].rhs,
            t.pyramid@[0].size,
            double_distance(size) as i32,
        ),
    ];
    let p5 = restrict_mask_ops(t.pyramid@);
    let all = before_solve(t, r);
    if i < p0.len() + p1.len() {
        assert(i < p0.len() ==> all[i] == p0[i]);
        assert(i >= p0.len() ==> all[i] == p1[i - p0.len()]);
    } else if i < p0.len() + p1.len() + p2.len() + p3.len() {
        let j = i - p0.len() - p1.len();
        assert(j < p2.len() ==> all[i] == p2[j]);
        assert(j >= p2.len() ==> all[i] == p3[j - p2.len()]);
    } else {
        let j = i - p0.len() - p1.len() - p2.len() - p3.len();
        assert(j < p4.len() ==> all[i] == p4[j]);
        assert(j >= p4.len() ==> all[i] == p5[j - p4.len()]);
    }
}

/// The steps of the flooding begin here.
spec fn steps_at() -> int {
    10
}

/// The solve begins here.
spec fn solve_at(t: &JfaTextures, r: RegionMask) -> int {
    steps_at() + jfa_rounds(r.size()) + 1 + (t.pyramid@.len() - 1) + t.pyramid@.len()
}

spec fn solve_plan(t: &JfaTextures) -> Seq<GpuOp> {
    v_cycle_ops(t.pyramid@, 0, poisson_schedule(), Side::A)
}

/// Where each part of the plan is.
proof fn lemma_plan_parts(
    t: &JfaTextures,
    r: RegionMask,
    rects: Seq<Edges>,
    previous: Option<Rect>,
)
    requires
        t.wf(),
        t.size == r.size(),
    ensures
        ({
            let plan = region_mask_ops(t, r, rects, false, previous, true);
            let size = r.size();
            let pyramid = t.pyramid@;
            let rounds = jfa_rounds(size) as int;
            let binary = binary_mask_ops(t.bin, r.rects_texture, r.instances, r.bbox);
            let v = solve_plan(t);
            let end = solve_at(t, r) + v.len();
            &&& plan.len() == end + 4
            &&& plan[0] == (GpuOp::Clear { target: r.mask, region: None })
            &&& binary.len() == 7
            &&& forall|i: int| 1 <= i < 8 ==> #[trigger] plan[i] == binary[i - 1]
            &&& plan[8] == jfa_init_ops(t.bin, t.jfa_a, size)[0]
            &&& plan[9] == jfa_init_ops(t.bin, t.jfa_a, size)[1]
            &&& forall|i: int|
                10 <= i < 10 + rounds ==> #[trigger] plan[i] == jfa_step_op(
                    t.jfa_a,
                    t.jfa_b,
                    size,
                    i - 10,
                )
            &&& plan[10 + rounds] == rhs_level0_op(
                t.bin,
                pyramid[0].rhs,
                pyramid[0].size,
                double_distance(size) as i32,
            )
            &&& forall|i: int|
                11 + rounds <= i < 10 + rounds + pyramid.len() ==> #[trigger] plan[i]
                    == restrict_mask_ops(pyramid)[i - 11 - rounds]
            &&& forall|i: int|
                10 + rounds + pyramid.len() <= i < solve_at(t, r) ==> #[trigger] plan[i]
                    == zero_guess_ops(pyramid)[i - 10 - rounds - pyramid.len()]
            &&& forall|i: int|
                solve_at(t, r) <= i < end ==> #[trigger] plan[i] == v[i - solve_at(t, r)]
            &&& plan[end] is Draw && plan[end] == encode_op(
                jfa_outcome(t.jfa_a, t.jfa_b, size),
                pyramid[0].solution(v_cycle_side(pyramid.len(), 0, poisson_schedule(), Side::A)),
                if jfa_outcome(t.jfa_a, t.jfa_b, size) == t.jfa_a {
                    t.jfa_b
                } else {
                    t.jfa_a
                },
                size,
                double_distance(size) as i32,
            )
            &&& plan[end + 1] == smooth_encoded_op(
                if jfa_outcome(t.jfa_a, t.jfa_b, size) == t.jfa_a {
                    t.jfa_b
                } else {
                    t.jfa_a
                },
                t.encoded,
                size,
            )
            &&& plan[end + 2] == place_field_ops(t, r, rects)[0]
            &&& plan[end + 3] == place_field_ops(t, r, rects)[1]
            &&& plan.take(solve_at(t, r)) =~= before_solve(t, r) + zero_guess_ops(pyramid)
        }),
{
    let plan = region_mask_ops(t, r, rects, false, previous, true);
    let size = r.size();
    let pyramid = t.pyramid@;
    let rounds = jfa_rounds(size) as int;
    let binary = binary_mask_ops(t.bin, r.rects_texture, r.instances, r.bbox);
    let v = solve_plan(t);
    let a = before_solve(t, r) + zero_guess_ops(pyramid);
    assert(border_ops(t.bin, size).len() == 4);
    assert(binary.len() == 7);
    reveal_with_fuel(solve_ops, 2);
    reveal_with_fuel(solve_side, 2);
    assert(solve_ops(pyramid, V_CYCLES as nat) =~= v);
    assert(before_solve(t, r).len() == 10 + rounds + pyramid.len());
    assert(a.len() == solve_at(t, r));
    let encode = encode_field_ops(t, r);
    let tail = encode.subrange(encode.len() - 2, encode.len() as int);
    let rest = a + v + tail + place_field_ops(t, r, rects);
    assert(plan =~= rest);
    assert forall|i: int| 0 <= i < a.len() implies plan[i] == a[i] by {}
    assert forall|i: int| 0 <= i < before_solve(t, r).len() implies a[i] == before_solve(t, r)[i] by {
    }
}

/// A flooding texture is no texture of the pyramid.
proof fn lemma_no_level(t: &JfaTextures, r: RegionMask, k: int, texture: u32)
    requires
        field_distinct(t, r),
        0 <= k < t.pyramid@.len(),
        texture == t.jfa_a || texture == t.jfa_b,
    ensures
        !level_has(t.pyramid@[k], texture),
{
}

/// What a solve writes is a texture of the pyramid, and it draws its own kinds only.
proof fn lemma_solve_stays_within(
    t: &JfaTextures,
    r: RegionMask,
    first: Seq<LevelState>,
    at: int,
)
    requires
        t.wf(),
        field_distinct(t, r),
        untouched(t.pyramid@, Side::A, first),
        0 <= at < solve_plan(t).len(),
    ensures
        solve_plan(t)[at] matches GpuOp::Draw(d) ==> stage(d.pass) == 5,
        !solve_plan(t)[at].writes(t.jfa_a),
        !solve_plan(t)[at].writes(t.jfa_b),
        !(solve_plan(t)[at] is Blit),
        op_in_place(
            solve_plan(t)[at],
            t.pyramid@,
            poisson_schedule(),
            level_states(solve_plan(t).take(at), t.pyramid@, first),
        ),
{
    let pyramid = t.pyramid@;
    law_v_cycle_works_on_the_latest(pyramid, poisson_schedule(), Side::A, first, at);
    let op = solve_plan(t)[at];
    let now = level_states(solve_plan(t).take(at), pyramid, first);
    let s = poisson_schedule();
    match op {
        GpuOp::Draw(d) => {
            let k = if exists|k: int|
                0 <= k < pyramid.len() && #[trigger] sweep_in_place(
                    d,
                    pyramid,
                    s,
                    now,
                    k,
                ) {
                choose|k: int|
                    0 <= k < pyramid.len() && #[trigger] sweep_in_place(
                        d,
                        pyramid,
                        s,
                        now,
                        k,
                    )
            } else if exists|k: int|
                0 <= k < pyramid.len() - 1 && #[trigger] residual_in_place(
                    d,
                    pyramid,
                    s,
                    now,
                    k,
                ) {
                1 + choose|k: int|
                    0 <= k < pyramid.len() - 1 && #[trigger] residual_in_place(
                        d,
                        pyramid,
                        s,
                        now,
                        k,
                    )
            } else {
                choose|k: int|
                    0 <= k < pyramid.len() - 1 && #[trigger] correction_in_place(
                        d,
                        pyramid,
                        s,
                        now,
                        k,
                    )
            };
            assert(level_has(pyramid[k], d.target));
            lemma_no_level(t, r, k, t.jfa_a);
            lemma_no_level(t, r, k, t.jfa_b);
        },
        GpuOp::Clear { target, region } => {
            let k = choose|k: int|
                0 <= k < pyramid.len() && #[trigger] guess_in_place(
                    target,
                    region,
                    pyramid,
                    now,
                    k,
                );
            assert(level_has(pyramid[k], target));
            lemma_no_level(t, r, k, t.jfa_a);
            lemma_no_level(t, r, k, t.jfa_b);
        },
        _ => {},
    }
}

/// The outcome of the flooding is still there after the solve.
proof fn lemma_outcome_is_kept(
    t: &JfaTextures,
    r: RegionMask,
    rects: Seq<Edges>,
    previous: Option<Rect>,
    first: Seq<LevelState>,
)
    requires
        t.wf(),
        t.size == r.size(),
        field_distinct(t, r),
        first.len() == t.pyramid@.len(),
        no_counts(first),
    ensures
        holds_last(
            region_mask_ops(t, r, rects, false, previous, true),
            solve_at(t, r) + solve_plan(t).len(),
            jfa_outcome(t.jfa_a, t.jfa_b, r.size()),
            flooding(),
        ),
{
    let plan = region_mask_ops(t, r, rects, false, previous, true);
    let pyramid = t.pyramid@;
    let rounds = jfa_rounds(r.size()) as int;
    let end = solve_at(t, r) + solve_plan(t).len();
    let texture = jfa_outcome(t.jfa_a, t.jfa_b, r.size());
    let now = level_states(plan.take(solve_at(t, r)), pyramid, first);
    lemma_plan_parts(t, r, rects, previous);
    lemma_states_before_solve(t, r, first);
    let i = 9 + rounds;
    assert(plan[i] == jfa_step_op(t.jfa_a, t.jfa_b, r.size(), rounds - 1));
    assert(draws_kind(plan[i], flooding()) && plan[i].writes(texture));
    assert forall|k: int| i < k < end implies !draws_kind(#[trigger] plan[k], flooding())
        && !plan[k].writes(texture) by {
        if k == 10 + rounds {
            assert(level_has(pyramid[0], pyramid[0].rhs));
            lemma_no_level(t, r, 0, texture);
        } else if k < 10 + rounds + pyramid.len() {
            let j = k - 11 - rounds;
            assert(level_has(pyramid[j + 1], pyramid[j + 1].rhs));
            lemma_no_level(t, r, j + 1, texture);
        } else if k < solve_at(t, r) {
            let j = k - 10 - rounds - pyramid.len();
            assert(level_has(pyramid[j], pyramid[j].u_a));
            lemma_no_level(t, r, j, texture);
        } else {
            lemma_solve_stays_within(t, r, now, k - solve_at(t, r));
        }
    }
}

proof fn lemma_fed_flooding(
    t: &JfaTextures,
    r: RegionMask,
    rects: Seq<Edges>,
    previous: Option<Rect>,
    first: Seq<LevelState>,
    at: int,
)
    requires
        t.wf(),
        t.size == r.size(),
        field_distinct(t, r),
        first.len() == t.pyramid@.len(),
        no_counts(first),
        0 <= at < 10 + jfa_rounds(r.size()),
        region_mask_ops(t, r, rects, false, previous, true)[at] is Draw,
    ensures
        draw_is_fed(
            region_mask_ops(t, r, rects, false, previous, true),
            at,
            region_mask_ops(t, r, rects, false, previous, true)[at]->Draw_0,
            t,
            r,
            first,
        ),
{
    let plan = region_mask_ops(t, r, rects, false, previous, true);
    lemma_plan_parts(t, r, rects, previous);
    if 1 <= at < 8 {
        assert(plan[at] == binary_mask_ops(t.bin, r.rects_texture, r.instances, r.bbox)[at - 1]);
    } else if at >= 10 {
        let round = at - 10;
        let texture = read_in_round(t.jfa_a, t.jfa_b, round);
        let i = if round == 0 { 8 } else { at - 1 };
        assert(draws_kind(plan[i], flooding()) && plan[i].writes(texture));
        assert(holds_last(plan, at, texture, flooding()));
    }
}

proof fn lemma_fed_levels(
    t: &JfaTextures,
    r: RegionMask,
    rects: Seq<Edges>,
    previous: Option<Rect>,
    first: Seq<LevelState>,
    at: int,
)
    requires
        t.wf(),
        t.size == r.size(),
        field_distinct(t, r),
        first.len() == t.pyramid@.len(),
        no_counts(first),
        10 + jfa_rounds(r.size()) <= at < solve_at(t, r),
        region_mask_ops(t, r, rects, false, previous, true)[at] is Draw,
    ensures
        draw_is_fed(
            region_mask_ops(t, r, rects, false, previous, true),
            at,
            region_mask_ops(t, r, rects, false, previous, true)[at]->Draw_0,
            t,
            r,
            first,
        ),
{
    let plan = region_mask_ops(t, r, rects, false, previous, true);
    let pyramid = t.pyramid@;
    let rounds = jfa_rounds(r.size()) as int;
    lemma_plan_parts(t, r, rects, previous);
    lemma_finest_size(t);
    if at > 10 + rounds && at < 10 + rounds + pyramid.len() {
        let k = at - 11 - rounds;
        assert(plan[at] == restrict_mask_ops(pyramid)[k]);
        if k > 0 {
            assert(plan[at - 1] == restrict_mask_ops(pyramid)[k - 1]);
        }
        assert(draws_kind(plan[at - 1], restricting()) && plan[at - 1].writes(pyramid[k].rhs));
        assert(holds_last(plan, at, pyramid[k].rhs, restricting()));
        assert(pyramid[k].size == pyramid[k].size);
    }
}

proof fn lemma_fed_solve(
    t: &JfaTextures,
    r: RegionMask,
    rects: Seq<Edges>,
    previous: Option<Rect>,
    first: Seq<LevelState>,
    at: int,
)
    requires
        t.wf(),
        t.size == r.size(),
        field_distinct(t, r),
        first.len() == t.pyramid@.len(),
        no_counts(first),
        solve_at(t, r) <= at < solve_at(t, r) + solve_plan(t).len(),
        region_mask_ops(t, r, rects, false, previous, true)[at] is Draw,
    ensures
        draw_is_fed(
            region_mask_ops(t, r, rects, false, previous, true),
            at,
            region_mask_ops(t, r, rects, false, previous, true)[at]->Draw_0,
            t,
            r,
            first,
        ),
{
    let plan = region_mask_ops(t, r, rects, false, previous, true);
    let pyramid = t.pyramid@;
    let s = solve_at(t, r);
    let v = solve_plan(t);
    lemma_plan_parts(t, r, rects, previous);
    lemma_states_before_solve(t, r, first);
    let start = level_states(plan.take(s), pyramid, first);
    let i = at - s;
    lemma_solve_stays_within(t, r, start, i);
    assert(plan.take(at) =~= plan.take(s) + v.take(i));
    lemma_level_states_concat(plan.take(s), v.take(i), pyramid, first);
    assert(poisson_schedule() == three_sweeps());
}

proof fn lemma_fed_encoding(
    t: &JfaTextures,
    r: RegionMask,
    rects: Seq<Edges>,
    previous: Option<Rect>,
    first: Seq<LevelState>,
    at: int,
)
    requires
        t.wf(),
        t.size == r.size(),
        field_distinct(t, r),
        first.len() == t.pyramid@.len(),
        no_counts(first),
        solve_at(t, r) + solve_plan(t).len() <= at < region_mask_ops(
            t,
            r,
            rects,
            false,
            previous,
            true,
        ).len(),
        region_mask_ops(t, r, rects, false, previous, true)[at] is Draw,
    ensures
        draw_is_fed(
            region_mask_ops(t, r, rects, false, previous, true),
            at,
            region_mask_ops(t, r, rects, false, previous, true)[at]->Draw_0,
            t,
            r,
            first,
        ),
{
    let plan = region_mask_ops(t, r, rects, false, previous, true);
    let pyramid = t.pyramid@;
    let s = solve_at(t, r);
    let v = solve_plan(t);
    let end = s + v.len();
    lemma_plan_parts(t, r, rects, previous);
    if at == end {
        lemma_states_before_solve(t, r, first);
        let start = level_states(plan.take(s), pyramid, first);
        lemma_outcome_is_kept(t, r, rects, previous, first);
        law_v_cycle_visits_every_level(pyramid, poisson_schedule(), Side::A, start, 0);
        assert(plan.take(at) =~= plan.take(s) + v);
        lemma_level_states_concat(plan.take(s), v, pyramid, first);
        assert(level_states(v, pyramid, start)[0] == level_state(v, pyramid[0], start[0]));
    } else if at == end + 1 {
        let texture = plan[end]->Draw_0.target;
        assert(draws_kind(plan[end], encoding()) && plan[end].writes(texture));
        assert(holds_last(plan, at, texture, encoding()));
    }
}

/// When the field of a region mask is built anew, every draw reads what the stages
/// before it left for it: the flooding starts from the binary mask and each of its
/// steps from the one before; the right-hand side comes from the binary mask, and the
/// mask of each level from the next finer one; the solve works on the latest
/// solutions; the encoding reads the outcome of the flooding on its first unit and
/// the finished solution of the finest level on its second; the filter reads the
/// encoding and writes the texture that is kept. Nothing but these draws is drawn.
pub proof fn law_field_draws_are_fed(
    t: &JfaTextures,
    r: RegionMask,
    rects: Seq<Edges>,
    previous: Option<Rect>,
    first: Seq<LevelState>,
    at: int,
)
    requires
        t.wf(),
        t.size == (Extent { w: r.bbox.w, h: r.bbox.h }),
        field_distinct(t, r),
        first.len() == t.pyramid@.len(),
        no_counts(first),
        0 <= at < region_mask_ops(t, r, rects, false, previous, true).len(),
    ensures
        region_mask_ops(t, r, rects, false, previous, true)[at] matches GpuOp::Draw(d)
            ==> draw_is_fed(
            region_mask_ops(t, r, rects, false, previous, true),
            at,
            d,
            t,
            r,
            first,
        ),
{
    if region_mask_ops(t, r, rects, false, previous, true)[at] is Draw {
        if at < 10 + jfa_rounds(r.size()) {
            lemma_fed_flooding(t, r, rects, previous, first, at);
        } else if at < solve_at(t, r) {
            lemma_fed_levels(t, r, rects, previous, first, at);
        } else if at < solve_at(t, r) + solve_plan(t).len() {
            lemma_fed_solve(t, r, rects, previous, first, at);
        } else {
            lemma_fed_encoding(t, r, rects, previous, first, at);
        }
    }
}

proof fn lemma_finest_size(t: &JfaTextures)
    requires
        t.wf(),
    ensures
        t.pyramid@[0].size == t.size,
{
    vstd::arithmetic::power2::lemma2_to64();
    assert(t.pyramid@[0].size == level_size(t.size, 0));
    assert(t.size.w as int / 1 == t.size.w);
    assert(t.size.h as int / 1 == t.size.h);
}

/// The stages that build a field are drawn one after the other, none is left out, and
/// what they leave in the texture that is kept goes onto the mask, from which
/// everything was cleared before.
pub proof fn law_field_stages_follow_each_other(
    t: &JfaTextures,
    r: RegionMask,
    rects: Seq<Edges>,
    previous: Option<Rect>,
    first: Seq<LevelState>,
    i: int,
    j: int,
)
    requires
        t.wf(),
        t.size == (Extent { w: r.bbox.w, h: r.bbox.h }),
        field_distinct(t, r),
        first.len() == t.pyramid@.len(),
        no_counts(first),
        0 <= i < j < region_mask_ops(t, r, rects, false, previous, true).len(),
    ensures
        ({
            let plan = region_mask_ops(t, r, rects, false, previous, true);
            let n = plan.len();
            &&& plan[i] is Draw && plan[j] is Draw ==> stage(plan[i]->Draw_0.pass) <= stage(
                plan[j]->Draw_0.pass,
            )
            &&& plan[i] is Draw && plan[j] is Draw && stage(plan[i]->Draw_0.pass) == stage(
                plan[j]->Draw_0.pass,
            ) ==> plan[i]->Draw_0.pass is JfaStep || plan[i]->Draw_0.pass is RestrictMask || stage(
                plan[i]->Draw_0.pass,
            ) == 5
            &&& plan[0] == (GpuOp::Clear { target: r.mask, region: None })
            &&& plan[n - 4] matches GpuOp::Draw(d) && d.pass is Encode
            &&& plan[n - 3] matches GpuOp::Draw(d) && d.pass is Smooth
            &&& plan[n - 2] matches GpuOp::Blit { source, target, .. } && source == t.encoded
                && target == r.mask && holds_last(plan, n - 2, source, filtering())
            &&& !(plan[n - 1] is Draw)
            &&& exists|k: int|
                0 <= k < n && draws_kind(#[trigger] plan[k], |p: Pass| p is BinaryMask)
            &&& exists|k: int| 0 <= k < n && draws_kind(#[trigger] plan[k], |p: Pass| p is JfaInit)
            &&& exists|k: int| 0 <= k < n && draws_kind(#[trigger] plan[k], |p: Pass| p is JfaStep)
            &&& exists|k: int|
                0 <= k < n && draws_kind(#[trigger] plan[k], |p: Pass| p is PoissonRhs)
        }),
{
    let plan = region_mask_ops(t, r, rects, false, previous, true);
    let n = plan.len() as int;
    lemma_plan_parts(t, r, rects, previous);
    lemma_stage_at(t, r, rects, previous, first, i);
    lemma_stage_at(t, r, rects, previous, first, j);
    let rounds = jfa_rounds(r.size()) as int;
    assert(plan[2] == binary_mask_ops(t.bin, r.rects_texture, r.instances, r.bbox)[1]);
    assert(draws_kind(plan[2], |p: Pass| p is BinaryMask));
    assert(draws_kind(plan[8], |p: Pass| p is JfaInit));
    assert(draws_kind(plan[10], |p: Pass| p is JfaStep));
    assert(draws_kind(plan[10 + rounds], |p: Pass| p is PoissonRhs));
    assert(draws_kind(plan[n - 3], filtering()) && plan[n - 3].writes(t.encoded));
    assert(holds_last(plan, n - 2, t.encoded, filtering()));
}

/// Which stage a draw of the plan belongs to, by its place.
proof fn lemma_stage_at(
    t: &JfaTextures,
    r: RegionMask,
    rects: Seq<Edges>,
    previous: Option<Rect>,
    first: Seq<LevelState>,
    at: int,
)
    requires
        t.wf(),
        t.size == r.size(),
        field_distinct(t, r),
        first.len() == t.pyramid@.len(),
        no_counts(first),
        0 <= at < region_mask_ops(t, r, rects, false, previous, true).len(),
    ensures
        ({
            let plan = region_mask_ops(t, r, rects, false, previous, true);
            let rounds = jfa_rounds(r.size()) as int;
            let s = solve_at(t, r);
            let end = s + solve_plan(t).len();
            plan[at] matches GpuOp::Draw(d) ==> stage(d.pass) == (if at < 8 {
                0int
            } else if at < 10 {
                1
            } else if at < 10 + rounds {
                2
            } else if at == 10 + rounds {
                3
            } else if at < s {
                4
            } else if at < end {
                5
            } else if at == end {
                6
            } else {
                7
            }) && (at < 8 ==> at == 2) && (8 <= at < 10 ==> at == 8) && (at > end ==> at == end + 1)
        }),
{
    let plan = region_mask_ops(t, r, rects, false, previous, true);
    lemma_plan_parts(t, r, rects, previous);
    let s = solve_at(t, r);
    if 1 <= at < 8 {
        assert(plan[at] == binary_mask_ops(t.bin, r.rects_texture, r.instances, r.bbox)[at - 1]);
    } else if s <= at < s + solve_plan(t).len() {
        lemma_states_before_solve(t, r, first);
        let start = level_states(plan.take(s), t.pyramid@, first);
        lemma_solve_stays_within(t, r, start, at - s);
    }
}

/// Every level gets the mask of the next finer one before the solve, and the finest
/// the right-hand side that is made of the binary mask.
pub proof fn law_every_level_gets_its_mask(
    t: &JfaTextures,
    r: RegionMask,
    rects: Seq<Edges>,
    previous: Option<Rect>,
    k: int,
)
    requires
        t.wf(),
        t.size == (Extent { w: r.bbox.w, h: r.bbox.h }),
        0 <= k < t.pyramid@.len(),
    ensures
        exists|i: int|
            #![trigger region_mask_ops(t, r, rects, false, previous, true)[i]]
            0 <= i < region_mask_ops(t, r, rects, false, previous, true).len() && draws_kind(
                region_mask_ops(t, r, rects, false, previous, true)[i],
                restricting(),
            ) && region_mask_ops(t, r, rects, false, previous, true)[i].writes(t.pyramid@[k].rhs),
{
    let plan = region_mask_ops(t, r, rects, false, previous, true);
    let rounds = jfa_rounds(r.size()) as int;
    lemma_plan_parts(t, r, rects, previous);
    let i = 10 + rounds + k;
    if k > 0 {
        assert(plan[i] == restrict_mask_ops(t.pyramid@)[k - 1]);
    }
    assert(draws_kind(plan[i], restricting()) && plan[i].writes(t.pyramid@[k].rhs));
}

// ---------------------------------------------------------------------------
// Placing the field
// ---------------------------------------------------------------------------

/// What one edge of the place of the field is: the outermost of the edges of the
/// rectangles, cut off at a bound.
pub open spec fn lowest_edge(edge: int, edges: Seq<int>, bound: int) -> bool {
    &&& edge >= bound
    &&& forall|i: int| 0 <= i < edges.len() ==> edge <= #[trigger] edges[i] || edge == bound
    &&& edge == bound || exists|i: int| 0 <= i < edges.len() && #[trigger] edges[i] == edge
    &&& edge == bound ==> exists|i: int| 0 <= i < edges.len() && #[trigger] edges[i] <= bound
}

/// The opposite edge.
pub open spec fn highest_edge(edge: int, edges: Seq<int>, bound: int) -> bool {
    &&& edge <= bound
    &&& forall|i: int| 0 <= i < edges.len() ==> edge >= #[trigger] edges[i] || edge == bound
    &&& edge == bound || exists|i: int| 0 <= i < edges.len() && #[trigger] edges[i] == edge
    &&& edge == bound ==> exists|i: int| 0 <= i < edges.len() && #[trigger] edges[i] >= bound
}

/// The field goes onto the mask as the last thing that is drawn, whether it was built
/// anew or reused: from the box without its outermost pixels, onto the smallest
/// rectangle around the rectangles, cut off at the bounds of the source.
pub proof fn law_field_lands_on_its_rectangles(
    t: &JfaTextures,
    r: RegionMask,
    rects: Seq<Edges>,
    cache_hit: bool,
    previous: Option<Rect>,
    programs: bool,
)
    requires
        bbox_within(r.bbox, r.source),
        cache_hit || programs,
    ensures
        ({
            let plan = region_mask_ops(t, r, rects, cache_hit, previous, programs);
            &&& plan.len() >= 2
            &&& plan[plan.len() - 2] matches GpuOp::Blit { source, target, from, to } && {
                &&& source == t.encoded
                &&& target == r.mask
                &&& from.x1 == 1 && from.y1 == 1
                &&& from.x2 == r.bbox.w - 1 && from.y2 == r.bbox.h - 1
                &&& rects.len() > 0 ==> {
                    &&& lowest_edge(
                        to.x1 as int,
                        Seq::new(rects.len(), |i: int| rects[i].x1 as int),
                        0,
                    )
                    &&& lowest_edge(
                        to.y1 as int,
                        Seq::new(rects.len(), |i: int| rects[i].y1 as int),
                        0,
                    )
                    &&& highest_edge(
                        to.x2 as int,
                        Seq::new(rects.len(), |i: int| rects[i].x2 as int),
                        r.source.w as int,
                    )
                    &&& highest_edge(
                        to.y2 as int,
                        Seq::new(rects.len(), |i: int| rects[i].y2 as int),
                        r.source.h as int,
                    )
                }
                &&& rects.len() == 0 ==> {
                    &&& to.x1 == r.bbox.x + 1 && to.y1 == r.bbox.y + 1
                    &&& to.x2 == r.bbox.x + r.bbox.w - 1 && to.y2 == r.bbox.y + r.bbox.h - 1
                }
            }
            &&& plan[plan.len() - 1] == (GpuOp::Sample {
                texture: r.mask,
                sampling: Sampling::Clamped(Filter::Linear),
            })
        }),
{
    let plan = region_mask_ops(t, r, rects, cache_hit, previous, programs);
    let place = place_field_ops(t, r, rects);
    assert(plan[plan.len() - 2] == place[0]);
    assert(plan[plan.len() - 1] == place[1]);
    if rects.len() > 0 {
        law_union_is_tight(rects);
        let u = union_of(rects);
        let x1 = Seq::new(rects.len(), |i: int| rects[i].x1 as int);
        let y1 = Seq::new(rects.len(), |i: int| rects[i].y1 as int);
        let x2 = Seq::new(rects.len(), |i: int| rects[i].x2 as int);
        let y2 = Seq::new(rects.len(), |i: int| rects[i].y2 as int);
        let a = choose|i: int| 0 <= i < rects.len() && (#[trigger] rects[i]).x1 == u.x1;
        let b = choose|i: int| 0 <= i < rects.len() && (#[trigger] rects[i]).y1 == u.y1;
        let c = choose|i: int| 0 <= i < rects.len() && (#[trigger] rects[i]).x2 == u.x2;
        let d = choose|i: int| 0 <= i < rects.len() && (#[trigger] rects[i]).y2 == u.y2;
        assert(x1[a] == u.x1 && y1[b] == u.y1 && x2[c] == u.x2 && y2[d] == u.y2);
        assert forall|i: int| 0 <= i < rects.len() implies u.x1 <= #[trigger] x1[i] by {
            assert(u.x1 <= rects[i].x1);
        }
        assert forall|i: int| 0 <= i < rects.len() implies u.y1 <= #[trigger] y1[i] by {
            assert(u.y1 <= rects[i].y1);
        }
        assert forall|i: int| 0 <= i < rects.len() implies u.x2 >= #[trigger] x2[i] by {
            assert(u.x2 >= rects[i].x2);
        }
        assert forall|i: int| 0 <= i < rects.len() implies u.y2 >= #[trigger] y2[i] by {
            assert(u.y2 >= rects[i].y2);
        }
    }
}

/// What the mask is cleared from before the field goes onto it: the box of its former
/// place if the field is reused and that place is known, and everything otherwise.
/// Nothing else is drawn when the field is reused, and nothing at all when it can
/// neither be reused nor built.
pub proof fn law_mask_is_cleared_first(
    t: &JfaTextures,
    r: RegionMask,
    rects: Seq<Edges>,
    cache_hit: bool,
    previous: Option<Rect>,
    programs: bool,
)
    ensures
        ({
            let plan = region_mask_ops(t, r, rects, cache_hit, previous, programs);
            &&& cache_hit && previous is Some && previous.unwrap().w > 0 && previous.unwrap().h > 0
                ==> plan.len() == 3 && plan[0] == (GpuOp::Clear { target: r.mask, region: previous })
            &&& cache_hit && previous is Some && !(previous.unwrap().w > 0 && previous.unwrap().h
                > 0) ==> plan.len() == 2
            &&& cache_hit && previous is None ==> plan.len() == 3 && plan[0] == (GpuOp::Clear {
                target: r.mask,
                region: None,
            })
            &&& !cache_hit ==> plan[0] == (GpuOp::Clear { target: r.mask, region: None })
            &&& !cache_hit && !programs ==> plan.len() == 1
        }),
{
}

// ---------------------------------------------------------------------------
// Sizes
// ---------------------------------------------------------------------------

/// The levels of a pyramid start with the box and halve from one to the next, never
/// below one pixel. They end with the first that is no larger than eight pixels on
/// either side, or with the twelfth.
pub proof fn law_levels_halve(bbox: Extent, sizes: Seq<Extent>, k: int)
    requires
        bbox.w > 0,
        bbox.h > 0,
        is_depth(bbox, sizes.len()),
        forall|k: int| 0 <= k < sizes.len() ==> #[trigger] sizes[k] == level_size(bbox, k as nat),
        0 <= k < sizes.len(),
    ensures
        1 <= sizes.len() <= 12,
        sizes[0] == bbox,
        k + 1 < sizes.len() ==> {
            &&& sizes[k + 1].w == (if sizes[k].w < 2 { 1 } else { sizes[k].w / 2 })
            &&& sizes[k + 1].h == (if sizes[k].h < 2 { 1 } else { sizes[k].h / 2 })
            &&& sizes[k].w > 8 || sizes[k].h > 8
        },
        k + 1 == sizes.len() ==> sizes.len() == 12 || sizes[k].w <= 8 && sizes[k].h <= 8,
{
    vstd::arithmetic::power2::lemma2_to64();
    assert(bbox.w as int / 1 == bbox.w);
    assert(bbox.h as int / 1 == bbox.h);
    assert(sizes[k] == level_size(bbox, k as nat));
    lemma_halved_step(bbox.w as int, k as nat);
    lemma_halved_step(bbox.h as int, k as nat);
    if k + 1 < sizes.len() {
        assert(sizes[k + 1] == level_size(bbox, (k + 1) as nat));
        lemma_halved_step(bbox.w as int, (k + 1) as nat);
        lemma_halved_step(bbox.h as int, (k + 1) as nat);
    }
}

/// The box of a region is one pixel larger than its span on every side, as far as the
/// source reaches; there is none if its origin lies beyond the source.
pub proof fn law_box_has_a_border(span: RegionSpan, source: Extent)
    requires
        source.w >= 0,
        source.h >= 0,
    ensures
        (match padded_box(span, source) {
            Some(b) => {
                &&& b.x == (if span.x < 1 { 0int } else { span.x - 1 })
                &&& b.y == (if span.y < 1 { 0int } else { span.y - 1 })
                &&& b.w == span.w + 2 || b.x + b.w == source.w || b.w == 1 && span.w < -1
                &&& b.h == span.h + 2 || b.y + b.h == source.h || b.h == 1 && span.h < -1
                &&& b.w <= span.w + 2 || b.w == 1
                &&& b.h <= span.h + 2 || b.h == 1
                &&& b.w >= 1 && b.x + b.w <= source.w
                &&& b.h >= 1 && b.y + b.h <= source.h
            },
            None => (if span.x < 1 { 0int } else { span.x - 1 }) >= source.w || (if span.y < 1 {
                0int
            } else {
                span.y - 1
            }) >= source.h,
        }),
{
}

/// The flooding within the plan of a field: its first step spans the largest power of two
/// that fits the longer side of the box, each further one half of the one before it, and
/// it does not end before it has spanned a single pixel.
pub proof fn law_flooding_runs_its_course(
    t: &JfaTextures,
    r: RegionMask,
    rects: Seq<Edges>,
    previous: Option<Rect>,
    first: Seq<LevelState>,
    at: int,
)
    requires
        t.wf(),
        t.size == (Extent { w: r.bbox.w, h: r.bbox.h }),
        field_distinct(t, r),
        first.len() == t.pyramid@.len(),
        no_counts(first),
        0 <= at < region_mask_ops(t, r, rects, false, previous, true).len(),
    ensures
        ({
            let plan = region_mask_ops(t, r, rects, false, previous, true);
            let longer = if r.bbox.w >= r.bbox.h { r.bbox.w } else { r.bbox.h };
            plan[at] matches GpuOp::Draw(d) ==> {
                &&& d.pass is JfaInit ==> plan[at + 1] == (GpuOp::Sample {
                    texture: d.target,
                    sampling: Sampling::Clamped(Filter::Nearest),
                })
                &&& d.pass is JfaInit ==> (plan[at + 2] matches GpuOp::Draw(e) && e.pass matches
                    Pass::JfaStep { step, .. } && step <= longer < 2 * step)
                &&& d.pass matches Pass::JfaStep { step, .. } ==> step == 1 || (
                plan[at + 1] matches GpuOp::Draw(e) && e.pass matches Pass::JfaStep {
                    step: next,
                    ..
                } && step == 2 * next)
            }
        }),
{
    let plan = region_mask_ops(t, r, rects, false, previous, true);
    let size = r.size();
    let rounds = jfa_rounds(size) as int;
    lemma_plan_parts(t, r, rects, previous);
    lemma_stage_at(t, r, rects, previous, first, at);
    if plan[at] is Draw {
        let steps = jfa_step_ops(t.jfa_a, t.jfa_b, size);
        if at == 8 {
            law_flooding_draws_halve_down_to_one(t.jfa_a, t.jfa_b, size, 0);
            assert(plan[10] == steps[0]);
        } else if 10 <= at < 10 + rounds {
            law_flooding_draws_halve_down_to_one(t.jfa_a, t.jfa_b, size, at - 10);
            assert(plan[at] == steps[at - 10]);
            if at + 1 < 10 + rounds {
                assert(plan[at + 1] == steps[at - 9]);
            }
        }
    }
}

/// At an operation of a plan the texture holds a binary mask: it was drawn, and nothing
/// has touched it since but clears of a single row or column.
pub open spec fn holds_binary(plan: Seq<GpuOp>, at: int, texture: u32) -> bool {
    exists|i: int|
        #![trigger plan[i]]
        0 <= i < at && draws_kind(plan[i], |p: Pass| p is BinaryMask) && plan[i].writes(texture) && (
        forall|k: int|
            i < k < at && (#[trigger] plan[k]).writes(texture) ==> (plan[k] matches GpuOp::Clear {
                region: Some(strip),
                ..
            } && (strip.w == 1 || strip.h == 1)))
}

/// Nothing that one stage of a field leaves for another is spoilt in between: the binary
/// mask is still there for the flooding and for the right-hand side; nothing is cleared
/// but the mask at the beginning, the binary mask, and solutions that have not been swept
/// yet; and only the finished field is copied.
pub proof fn law_field_plan_spoils_nothing(
    t: &JfaTextures,
    r: RegionMask,
    rects: Seq<Edges>,
    previous: Option<Rect>,
    first: Seq<LevelState>,
    at: int,
)
    requires
        t.wf(),
        t.size == (Extent { w: r.bbox.w, h: r.bbox.h }),
        field_distinct(t, r),
        first.len() == t.pyramid@.len(),
        no_counts(first),
        0 <= at < region_mask_ops(t, r, rects, false, previous, true).len(),
    ensures
        ({
            let plan = region_mask_ops(t, r, rects, false, previous, true);
            let now = level_states(plan.take(at), t.pyramid@, first);
            match plan[at] {
                GpuOp::Draw(d) => d.pass is JfaInit || d.pass is PoissonRhs ==> holds_binary(
                    plan,
                    at,
                    t.bin,
                ),
                GpuOp::Clear { target, .. } => at == 0 || target == t.bin || exists|k: int|
                    #![trigger t.pyramid@[k]]
                    0 <= k < t.pyramid@.len() && (target == t.pyramid@[k].u_a || target
                        == t.pyramid@[k].u_b) && now[k].sweeps == 0,
                GpuOp::Blit { .. } => at == plan.len() - 2,
                GpuOp::Sample { .. } => true,
                GpuOp::Upload { .. } => false,
            }
        }),
{
    let plan = region_mask_ops(t, r, rects, false, previous, true);
    let pyramid = t.pyramid@;
    let rounds = jfa_rounds(r.size()) as int;
    let s = solve_at(t, r);
    lemma_plan_parts(t, r, rects, previous);
    lemma_stage_at(t, r, rects, previous, first, at);
    if at < 8 {
        if at >= 1 {
            lemma_binary_op(t, r, at - 1);
        }
    } else if at <= 10 + rounds {
        if at == 8 || at == 10 + rounds {
            lemma_binary_is_kept(t, r, rects, previous, at);
        }
    } else if at < s {
        if at >= 10 + rounds + pyramid.len() {
            let k = at - 10 - rounds - pyramid.len();
            let now = level_states(plan.take(at), pyramid, first);
            assert(plan[at] == zero_guess_ops(pyramid)[k]);
            lemma_unswept_before_solve(t, r, rects, previous, first, at, k);
            assert(pyramid[k].u_a == pyramid[k].u_a);
        }
    } else if at < s + solve_plan(t).len() {
        lemma_states_before_solve(t, r, first);
        let start = level_states(plan.take(s), pyramid, first);
        let i = at - s;
        lemma_solve_stays_within(t, r, start, i);
        assert(plan.take(at) =~= plan.take(s) + solve_plan(t).take(i));
        lemma_level_states_concat(plan.take(s), solve_plan(t).take(i), pyramid, first);
        let now = level_states(plan.take(at), pyramid, first);
        if let GpuOp::Clear { target, region } = plan[at] {
            let k = choose|k: int|
                0 <= k < pyramid.len() && #[trigger] guess_in_place(target, region, pyramid, now, k);
            assert(pyramid[k].u_a == pyramid[k].u_a);
        }
    }
}

/// What the operations of the binary mask do to its texture.
proof fn lemma_binary_op(t: &JfaTextures, r: RegionMask, i: int)
    requires
        r.bbox.w > 0,
        r.bbox.h > 0,
        0 <= i < 7,
    ensures
        ({
            let op = binary_mask_ops(t.bin, r.rects_texture, r.instances, r.bbox)[i];
            &&& op is Clear || op is Draw || op is Sample
            &&& op is Clear ==> op->Clear_target == t.bin
            &&& i == 1 <==> op is Draw
            &&& i > 1 && op is Clear ==> (op->Clear_region matches Some(strip) && (strip.w == 1
                || strip.h == 1))
            &&& i == 1 ==> draws_kind(op, |p: Pass| p is BinaryMask) && op.writes(t.bin)
        }),
{
    let border = border_ops(t.bin, r.size());
    let ops = binary_mask_ops(t.bin, r.rects_texture, r.instances, r.bbox);
    assert(border.len() == 4);
    if 2 <= i < 6 {
        assert(ops[i] == border[i - 2]);
    }
}

proof fn lemma_binary_is_kept(
    t: &JfaTextures,
    r: RegionMask,
    rects: Seq<Edges>,
    previous: Option<Rect>,
    at: int,
)
    requires
        t.wf(),
        t.size == r.size(),
        field_distinct(t, r),
        8 <= at <= 10 + jfa_rounds(r.size()),
    ensures
        holds_binary(region_mask_ops(t, r, rects, false, previous, true), at, t.bin),
{
    let plan = region_mask_ops(t, r, rects, false, previous, true);
    lemma_plan_parts(t, r, rects, previous);
    let binary = binary_mask_ops(t.bin, r.rects_texture, r.instances, r.bbox);
    lemma_binary_op(t, r, 1);
    assert(plan[2] == binary[1]);
    assert forall|k: int| 2 < k < at && (#[trigger] plan[k]).writes(t.bin) implies (
    plan[k] matches GpuOp::Clear { region: Some(strip), .. } && (strip.w == 1 || strip.h == 1)) by {
        if k < 8 {
            assert(plan[k] == binary[k - 1]);
            lemma_binary_op(t, r, k - 1);
        } else if k >= 10 {
            assert(plan[k] == jfa_step_op(t.jfa_a, t.jfa_b, r.size(), k - 10));
        }
    }
}

proof fn lemma_unswept_before_solve(
    t: &JfaTextures,
    r: RegionMask,
    rects: Seq<Edges>,
    previous: Option<Rect>,
    first: Seq<LevelState>,
    at: int,
    k: int,
)
    requires
        t.wf(),
        t.size == r.size(),
        field_distinct(t, r),
        first.len() == t.pyramid@.len(),
        no_counts(first),
        0 <= at <= solve_at(t, r),
        0 <= k < t.pyramid@.len(),
    ensures
        level_state(
            region_mask_ops(t, r, rects, false, previous, true).take(at),
            t.pyramid@[k],
            first[k],
        ).sweeps == 0,
{
    let plan = region_mask_ops(t, r, rects, false, previous, true);
    lemma_plan_parts(t, r, rects, previous);
    let ops = plan.take(at);
    assert forall|i: int| 0 <= i < ops.len() implies (#[trigger] ops[i] matches GpuOp::Draw(d) ==> !(
    d.pass is Jacobi) && !(d.pass is ResidualRestrict) && !(d.pass is Prolongate)) by {
        lemma_stage_at(t, r, rects, previous, first, i);
        assert(ops[i] == plan[i]);
    }
    lemma_counts_stay(ops, t.pyramid@[k], first[k]);
    assert(first[k].sweeps == 0);
}

} // verus!
