//! The multigrid Poisson solve that gives the region mask its direction field.

use vstd::prelude::*;
use vstd::arithmetic::power2::{lemma2_to64, lemma2_to64_rest, lemma_pow2_strictly_increases, pow2};
use vstd::bits::lemma_u64_shl_is_mul;

use crate::float_bits::F32Bits;
use crate::gpu::{
    plan_free_of_feedback, Binding, Channels, Draw, Extent, Filter, GpuOp, Pass, Rect, Sampling,
};

verus! {

/// One of the two textures that a solution alternates between.
#[derive(Clone, Copy, Debug, PartialEq, Eq, Structural)]
pub enum Side {
    A,
    B,
}

impl Side {
    pub open spec fn flipped(self) -> Side {
        match self {
            Side::A => Side::B,
            Side::B => Side::A,
        }
    }

    /// The side that is reached by flipping `n` times.
    pub open spec fn after(self, n: nat) -> Side {
        if n % 2 == 0 {
            self
        } else {
            self.flipped()
        }
    }

    pub fn flip(self) -> (r: Side)
        ensures
            r == self.flipped(),
    {
        match self {
            Side::A => Side::B,
            Side::B => Side::A,
        }
    }
}

/// One level of the multigrid pyramid.
#[derive(Clone, Copy, Debug, PartialEq, Eq, Structural)]
pub struct MultigridLevel {
    /// Solution, side A.
    pub u_a: u32,
    /// Solution, side B.
    pub u_b: u32,
    /// Forcing function in the first channel, mask in the second.
    pub rhs: u32,
    pub size: Extent,
}

impl MultigridLevel {
    /// The texture that holds the solution on the given side.
    pub open spec fn solution(self, side: Side) -> u32 {
        match side {
            Side::A => self.u_a,
            Side::B => self.u_b,
        }
    }

    pub fn solution_texture(self, side: Side) -> (r: u32)
        ensures
            r == self.solution(side),
    {
        match side {
            Side::A => self.u_a,
            Side::B => self.u_b,
        }
    }
}

/// Most levels for which the squared grid spacing is a 64-bit number.
pub const MAX_LEVELS: usize = 32;

/// The squared grid spacing of a level: the spacing doubles from level to level.
pub open spec fn spacing_squared(level: nat) -> nat {
    pow2(2 * level)
}

fn compute_spacing_squared(level: usize) -> (r: u64)
    requires
        level < MAX_LEVELS,
    ensures
        r == spacing_squared(level as nat),
{
    proof {
        lemma2_to64();
        lemma2_to64_rest();
        if 2 * level < 63 {
            lemma_pow2_strictly_increases((2 * level) as nat, 63);
        }
        lemma_u64_shl_is_mul(1, (2 * level) as u64);
    }
    1u64 << ((2 * level) as u64)
}

// ---------------------------------------------------------------------------
// Preparation
// ---------------------------------------------------------------------------

/// The right-hand side of the finest level, from the binary mask.
pub open spec fn rhs_level0_op(bin: u32, rhs: u32, size: Extent, double_distance: i32) -> GpuOp {
    GpuOp::Draw(
        Draw {
            pass: Pass::PoissonRhs { double_distance },
            target: rhs,
            viewport: size,
            unit0: Some(Binding { texture: bin, sampling: Sampling::Filtered(Filter::Nearest) }),
            unit1: None,
            unit2: None,
            channels: Channels::All,
        },
    )
}

/// Write the right-hand side of the finest level from the binary mask.
pub fn init_rhs_level0(
    ops: &mut Vec<GpuOp>,
    bin: u32,
    rhs: u32,
    size: Extent,
    double_distance: i32,
)
    ensures
        final(ops)@ == old(ops)@.push(rhs_level0_op(bin, rhs, size, double_distance)),
{
    ops.push(
        GpuOp::Draw(
            Draw {
                pass: Pass::PoissonRhs { double_distance },
                target: rhs,
                viewport: size,
                unit0: Some(
                    Binding { texture: bin, sampling: Sampling::Filtered(Filter::Nearest) },
                ),
                unit1: None,
                unit2: None,
                channels: Channels::All,
            },
        ),
    );
}

/// The restriction of the mask from one level to the next coarser one.
pub open spec fn restrict_mask_op(fine: MultigridLevel, coarse: MultigridLevel) -> GpuOp {
    GpuOp::Draw(
        Draw {
            pass: Pass::RestrictMask { texel: fine.size },
            target: coarse.rhs,
            viewport: coarse.size,
            unit0: Some(
                Binding { texture: fine.rhs, sampling: Sampling::Filtered(Filter::Linear) },
            ),
            unit1: None,
            unit2: None,
            channels: Channels::All,
        },
    )
}

/// The restriction of the mask through the whole pyramid.
pub open spec fn restrict_mask_ops(pyramid: Seq<MultigridLevel>) -> Seq<GpuOp>
    recommends
        pyramid.len() >= 1,
{
    Seq::new((pyramid.len() - 1) as nat, |k: int| restrict_mask_op(pyramid[k], pyramid[k + 1]))
}

/// Restrict the mask from every level to the next coarser one.
pub fn restrict_mask_pyramid(ops: &mut Vec<GpuOp>, pyramid: &Vec<MultigridLevel>)
    requires
        pyramid@.len() >= 1,
    ensures
        final(ops)@ == old(ops)@ + restrict_mask_ops(pyramid@),
{
    let mut k: usize = 1;
    while k < pyramid.len()
        invariant
            1 <= k <= pyramid@.len(),
            ops@ == old(ops)@ + restrict_mask_ops(pyramid@).take(k - 1),
        decreases pyramid@.len() - k,
    {
        let fine: MultigridLevel = pyramid[k - 1];
        let coarse: MultigridLevel = pyramid[k];
        ops.push(
            GpuOp::Draw(
                Draw {
                    pass: Pass::RestrictMask { texel: fine.size },
                    target: coarse.rhs,
                    viewport: coarse.size,
                    unit0: Some(
                        Binding { texture: fine.rhs, sampling: Sampling::Filtered(Filter::Linear) },
                    ),
                    unit1: None,
                    unit2: None,
                    channels: Channels::All,
                },
            ),
        );
        proof {
            let all = restrict_mask_ops(pyramid@);
            assert(all.take(k as int) =~= all.take(k - 1).push(all[k - 1]));
            assert(ops@ =~= old(ops)@ + all.take(k as int));
        }
        k = k + 1;
    }
    assert(restrict_mask_ops(pyramid@).take(k - 1) =~= restrict_mask_ops(pyramid@));
}

/// The initial guess of zero on every level.
pub open spec fn zero_guess_ops(pyramid: Seq<MultigridLevel>) -> Seq<GpuOp> {
    Seq::new(
        pyramid.len(),
        |k: int| GpuOp::Clear { target: pyramid[k].u_a, region: None },
    )
}

/// Clear side A of every level.
pub fn clear_solutions(ops: &mut Vec<GpuOp>, pyramid: &Vec<MultigridLevel>)
    ensures
        final(ops)@ == old(ops)@ + zero_guess_ops(pyramid@),
{
    let mut k: usize = 0;
    assert(zero_guess_ops(pyramid@).take(0) =~= seq![]);
    while k < pyramid.len()
        invariant
            k <= pyramid@.len(),
            ops@ == old(ops)@ + zero_guess_ops(pyramid@).take(k as int),
        decreases pyramid@.len() - k,
    {
        ops.push(GpuOp::Clear { target: pyramid[k].u_a, region: None });
        proof {
            let all = zero_guess_ops(pyramid@);
            assert(all.take(k + 1) =~= all.take(k as int).push(all[k as int]));
            assert(ops@ =~= old(ops)@ + all.take(k + 1));
        }
        k = k + 1;
    }
    assert(zero_guess_ops(pyramid@).take(k as int) =~= zero_guess_ops(pyramid@));
}

// ---------------------------------------------------------------------------
// Smoothing
// ---------------------------------------------------------------------------

/// One Jacobi sweep, from one side of the solution to the other.
pub open spec fn sweep_op(level: MultigridLevel, k: nat, omega: F32Bits, from: Side) -> GpuOp {
    GpuOp::Draw(
        Draw {
            pass: Pass::Jacobi {
                texel: level.size,
                spacing_squared: spacing_squared(k) as u64,
                omega,
            },
            target: level.solution(from.flipped()),
            viewport: level.size,
            unit0: Some(
                Binding {
                    texture: level.solution(from),
                    sampling: Sampling::Filtered(Filter::Nearest),
                },
            ),
            unit1: Some(Binding { texture: level.rhs, sampling: Sampling::Keep }),
            unit2: None,
            channels: Channels::All,
        },
    )
}

/// The sweeps of a smoothing, after its right-hand side is set up.
pub open spec fn smooth_ops(
    level: MultigridLevel,
    k: nat,
    sweeps: nat,
    omega: F32Bits,
    start: Side,
) -> Seq<GpuOp> {
    seq![
        GpuOp::Sample { texture: level.rhs, sampling: Sampling::Filtered(Filter::Nearest) },
    ] + Seq::new(sweeps, |i: int| sweep_op(level, k, omega, start.after(i as nat)))
}

/// Smooth the solution of level `k` with the given number of Jacobi sweeps; the
/// result is the side that holds the latest solution.
pub fn jacobi_smooth(
    ops: &mut Vec<GpuOp>,
    pyramid: &Vec<MultigridLevel>,
    k: usize,
    sweeps: u32,
    start: Side,
    omega: F32Bits,
) -> (side: Side)
    requires
        k < pyramid@.len(),
        k < MAX_LEVELS,
    ensures
        final(ops)@ == old(ops)@ + smooth_ops(pyramid@[k as int], k as nat, sweeps as nat, omega, start),
        side == start.after(sweeps as nat),
{
    let level: MultigridLevel = pyramid[k];
    let spacing: u64 = compute_spacing_squared(k);
    ops.push(GpuOp::Sample { texture: level.rhs, sampling: Sampling::Filtered(Filter::Nearest) });
    let mut side: Side = start;
    let mut i: u32 = 0;
    let ghost all = smooth_ops(level, k as nat, sweeps as nat, omega, start);
    assert(ops@ =~= old(ops)@ + all.take(1));
    while i < sweeps
        invariant
            i <= sweeps,
            spacing == spacing_squared(k as nat),
            side == start.after(i as nat),
            all == smooth_ops(level, k as nat, sweeps as nat, omega, start),
            ops@ == old(ops)@ + all.take(i + 1),
        decreases sweeps - i,
    {
        let from: u32 = level.solution_texture(side);
        let to: u32 = level.solution_texture(side.flip());
        ops.push(
            GpuOp::Draw(
                Draw {
                    pass: Pass::Jacobi { texel: level.size, spacing_squared: spacing, omega },
                    target: to,
                    viewport: level.size,
                    unit0: Some(
                        Binding { texture: from, sampling: Sampling::Filtered(Filter::Nearest) },
                    ),
                    unit1: Some(Binding { texture: level.rhs, sampling: Sampling::Keep }),
                    unit2: None,
                    channels: Channels::All,
                },
            ),
        );
        side = side.flip();
        proof {
            assert(all[i + 1] == sweep_op(level, k as nat, omega, start.after(i as nat)));
            assert(all.take(i + 2) =~= all.take(i + 1).push(all[i + 1]));
            assert(ops@ =~= old(ops)@ + all.take(i + 2));
        }
        i = i + 1;
    }
    assert(all.take(i + 1) =~= all);
    side
}

// ---------------------------------------------------------------------------
// Transfer between levels
// ---------------------------------------------------------------------------

/// The residual of a level becomes the right-hand side of the next coarser one,
/// whose mask stays; the correction there starts from zero.
pub open spec fn residual_ops(
    fine: MultigridLevel,
    coarse: MultigridLevel,
    k: nat,
    side: Side,
) -> Seq<GpuOp> {
    seq![
        GpuOp::Draw(
            Draw {
                pass: Pass::ResidualRestrict {
                    texel: fine.size,
                    spacing_squared: spacing_squared(k) as u64,
                },
                target: coarse.rhs,
                viewport: coarse.size,
                unit0: Some(
                    Binding {
                        texture: fine.solution(side),
                        sampling: Sampling::Filtered(Filter::Nearest),
                    },
                ),
                unit1: Some(
                    Binding { texture: fine.rhs, sampling: Sampling::Filtered(Filter::Nearest) },
                ),
                unit2: None,
                channels: Channels::RedOnly,
            },
        ),
        GpuOp::Clear { target: coarse.u_a, region: None },
    ]
}

/// Restrict the residual of level `k` to the next coarser level.
pub fn residual_restrict(
    ops: &mut Vec<GpuOp>,
    pyramid: &Vec<MultigridLevel>,
    k: usize,
    side: Side,
)
    requires
        k + 1 < pyramid@.len(),
        k < MAX_LEVELS,
    ensures
        final(ops)@ == old(ops)@ + residual_ops(
            pyramid@[k as int],
            pyramid@[k + 1],
            k as nat,
            side,
        ),
{
    let fine: MultigridLevel = pyramid[k];
    let coarse: MultigridLevel = pyramid[k + 1];
    let spacing: u64 = compute_spacing_squared(k);
    let solution: u32 = fine.solution_texture(side);
    ops.push(
        GpuOp::Draw(
            Draw {
                pass: Pass::ResidualRestrict { texel: fine.size, spacing_squared: spacing },
                target: coarse.rhs,
                viewport: coarse.size,
                unit0: Some(
                    Binding { texture: solution, sampling: Sampling::Filtered(Filter::Nearest) },
                ),
                unit1: Some(
                    Binding { texture: fine.rhs, sampling: Sampling::Filtered(Filter::Nearest) },
                ),
                unit2: None,
                channels: Channels::RedOnly,
            },
        ),
    );
    ops.push(GpuOp::Clear { target: coarse.u_a, region: None });
    assert(ops@ =~= old(ops)@ + residual_ops(fine, coarse, k as nat, side));
}

/// The coarse correction, upsampled and added to the fine solution; the sum goes
/// to the other side of the fine level.
pub open spec fn prolongate_op(
    fine: MultigridLevel,
    coarse: MultigridLevel,
    fine_side: Side,
    coarse_side: Side,
) -> GpuOp {
    GpuOp::Draw(
        Draw {
            pass: Pass::Prolongate,
            target: fine.solution(fine_side.flipped()),
            viewport: fine.size,
            unit0: Some(
                Binding {
                    texture: fine.solution(fine_side),
                    sampling: Sampling::Filtered(Filter::Nearest),
                },
            ),
            unit1: Some(
                Binding {
                    texture: coarse.solution(coarse_side),
                    sampling: Sampling::Clamped(Filter::Linear),
                },
            ),
            unit2: Some(
                Binding { texture: fine.rhs, sampling: Sampling::Filtered(Filter::Nearest) },
            ),
            channels: Channels::All,
        },
    )
}

/// Add the correction of the next coarser level to level `k`; the result is the
/// side that holds the sum.
pub fn prolongate(
    ops: &mut Vec<GpuOp>,
    pyramid: &Vec<MultigridLevel>,
    k: usize,
    fine_side: Side,
    coarse_side: Side,
) -> (side: Side)
    requires
        k + 1 < pyramid.len(),
    ensures
        final(ops)@ == old(ops)@.push(
            prolongate_op(pyramid@[k as int], pyramid@[k + 1], fine_side, coarse_side),
        ),
        side == fine_side.flipped(),
{
    let fine: MultigridLevel = pyramid[k];
    let coarse: MultigridLevel = pyramid[k + 1];
    let other: Side = fine_side.flip();
    let target: u32 = fine.solution_texture(other);
    let solution: u32 = fine.solution_texture(fine_side);
    let correction: u32 = coarse.solution_texture(coarse_side);
    ops.push(
        GpuOp::Draw(
            Draw {
                pass: Pass::Prolongate,
                target,
                viewport: fine.size,
                unit0: Some(
                    Binding { texture: solution, sampling: Sampling::Filtered(Filter::Nearest) },
                ),
                unit1: Some(
                    Binding { texture: correction, sampling: Sampling::Clamped(Filter::Linear) },
                ),
                unit2: Some(
                    Binding { texture: fine.rhs, sampling: Sampling::Filtered(Filter::Nearest) },
                ),
                channels: Channels::All,
            },
        ),
    );
    other
}

// ---------------------------------------------------------------------------
// V-cycle
// ---------------------------------------------------------------------------

/// The parameters of a V-cycle.
#[derive(Clone, Copy, Debug, PartialEq, Eq)]
pub struct Schedule {
    /// Sweeps before the residual goes down; twice as many on the coarsest level.
    pub pre: u32,
    /// Sweeps after the correction comes up.
    pub post: u32,
    pub omega: F32Bits,
}

/// The side of level `k` that holds the solution after a V-cycle from there down.
pub open spec fn v_cycle_side(depth: nat, k: nat, s: Schedule, start: Side) -> Side {
    if k + 1 >= depth {
        start.after((2 * s.pre) as nat)
    } else {
        start.after(s.pre as nat).flipped().after(s.post as nat)
    }
}

/// A V-cycle from level `k` down: smooth, hand the residual to the next coarser
/// level, run the V-cycle there, add its correction, smooth again. The coarsest
/// level is only smoothed.
pub open spec fn v_cycle_ops(pyramid: Seq<MultigridLevel>, k: nat, s: Schedule, start: Side) -> Seq<
    GpuOp,
>
    decreases pyramid.len() - k,
{
    if k + 1 >= pyramid.len() {
        smooth_ops(pyramid[k as int], k, (2 * s.pre) as nat, s.omega, start)
    } else {
        let side = start.after(s.pre as nat);
        smooth_ops(pyramid[k as int], k, s.pre as nat, s.omega, start) + residual_ops(
            pyramid[k as int],
            pyramid[k as int + 1],
            k,
            side,
        ) + v_cycle_ops(pyramid, k + 1, s, Side::A) + seq![
            prolongate_op(
                pyramid[k as int],
                pyramid[k as int + 1],
                side,
                v_cycle_side(pyramid.len(), k + 1, s, Side::A),
            ),
        ] + smooth_ops(pyramid[k as int], k, s.post as nat, s.omega, side.flipped())
    }
}

/// The side from which level `k` starts.
spec fn start_of(k: nat, start: Side) -> Side {
    if k == 0 {
        start
    } else {
        Side::A
    }
}

/// What the sweep down does at level `k`.
spec fn down_ops(pyramid: Seq<MultigridLevel>, k: nat, s: Schedule, start: Side) -> Seq<GpuOp> {
    let from = start_of(k, start);
    smooth_ops(pyramid[k as int], k, s.pre as nat, s.omega, from) + residual_ops(
        pyramid[k as int],
        pyramid[k as int + 1],
        k,
        from.after(s.pre as nat),
    )
}

/// What the sweep up does at level `k`.
spec fn up_ops(pyramid: Seq<MultigridLevel>, k: nat, s: Schedule, start: Side) -> Seq<GpuOp> {
    let side = start_of(k, start).after(s.pre as nat);
    seq![
        prolongate_op(
            pyramid[k as int],
            pyramid[k as int + 1],
            side,
            v_cycle_side(pyramid.len(), k + 1, s, Side::A),
        ),
    ] + smooth_ops(pyramid[k as int], k, s.post as nat, s.omega, side.flipped())
}

/// The sweep down through the levels before `k`.
spec fn down_to(pyramid: Seq<MultigridLevel>, k: nat, s: Schedule, start: Side) -> Seq<GpuOp>
    decreases k,
{
    if k == 0 {
        seq![]
    } else {
        down_to(pyramid, (k - 1) as nat, s, start) + down_ops(pyramid, (k - 1) as nat, s, start)
    }
}

/// The sweep up through the levels before `k`.
spec fn up_from(pyramid: Seq<MultigridLevel>, k: nat, s: Schedule, start: Side) -> Seq<GpuOp>
    decreases k,
{
    if k == 0 {
        seq![]
    } else {
        up_ops(pyramid, (k - 1) as nat, s, start) + up_from(pyramid, (k - 1) as nat, s, start)
    }
}

/// A V-cycle is a sweep down, a V-cycle at any level on the way, and a sweep up.
proof fn lemma_v_cycle_unrolled(pyramid: Seq<MultigridLevel>, k: nat, s: Schedule, start: Side)
    requires
        k < pyramid.len(),
    ensures
        v_cycle_ops(pyramid, 0, s, start) =~= down_to(pyramid, k, s, start) + v_cycle_ops(
            pyramid,
            k,
            s,
            start_of(k, start),
        ) + up_from(pyramid, k, s, start),
    decreases k,
{
    if k > 0 {
        let j = (k - 1) as nat;
        lemma_v_cycle_unrolled(pyramid, j, s, start);
        assert(v_cycle_ops(pyramid, j, s, start_of(j, start)) =~= down_ops(pyramid, j, s, start)
            + v_cycle_ops(pyramid, k, s, Side::A) + up_ops(pyramid, j, s, start));
    }
}

/// Run one V-cycle over the pyramid; the result is the side of the finest level
/// that holds the solution.
pub fn run_v_cycle(
    ops: &mut Vec<GpuOp>,
    pyramid: &Vec<MultigridLevel>,
    s: Schedule,
    start: Side,
) -> (side: Side)
    requires
        1 <= pyramid@.len() <= MAX_LEVELS,
        2 * s.pre <= u32::MAX,
    ensures
        final(ops)@ == old(ops)@ + v_cycle_ops(pyramid@, 0, s, start),
        side == v_cycle_side(pyramid@.len(), 0, s, start),
{
    let last: usize = pyramid.len() - 1;
    let mut sides: Vec<Side> = Vec::new();
    let mut k: usize = 0;
    let mut from: Side = start;
    assert(down_to(pyramid@, 0, s, start) =~= seq![]);
    while k < last
        invariant
            last == pyramid@.len() - 1,
            pyramid@.len() <= MAX_LEVELS,
            k <= last,
            sides@.len() == k,
            from == start_of(k as nat, start),
            forall|j: int|
                0 <= j < k ==> #[trigger] sides@[j] == start_of(j as nat, start).after(s.pre as nat),
            ops@ == old(ops)@ + down_to(pyramid@, k as nat, s, start),
        decreases last - k,
    {
        let ghost before = ops@;
        let side: Side = jacobi_smooth(ops, pyramid, k, s.pre, from, s.omega);
        residual_restrict(ops, pyramid, k, side);
        sides.push(side);
        from = Side::A;
        assert(ops@ =~= before + down_ops(pyramid@, k as nat, s, start));
        assert(ops@ =~= old(ops)@ + down_to(pyramid@, (k + 1) as nat, s, start));
        k = k + 1;
    }
    let mut side: Side = jacobi_smooth(ops, pyramid, last, 2 * s.pre, from, s.omega);
    let ghost top = ops@;
    proof {
        lemma_v_cycle_unrolled(pyramid@, last as nat, s, start);
        assert(top =~= old(ops)@ + down_to(pyramid@, last as nat, s, start) + v_cycle_ops(
            pyramid@,
            last as nat,
            s,
            start_of(last as nat, start),
        ));
    }
    let ghost rest = up_from(pyramid@, last as nat, s, start);
    while k > 0
        invariant
            last == pyramid@.len() - 1,
            pyramid@.len() <= MAX_LEVELS,
            k <= last,
            sides@.len() == last,
            forall|j: int|
                0 <= j < last ==> #[trigger] sides@[j] == start_of(j as nat, start).after(
                    s.pre as nat,
                ),
            side == v_cycle_side(pyramid@.len(), k as nat, s, start_of(k as nat, start)),
            ops@ + up_from(pyramid@, k as nat, s, start) =~= top + rest,
        decreases k,
    {
        k = k - 1;
        let ghost before = ops@;
        let fine: Side = sides[k];
        let raised: Side = prolongate(ops, pyramid, k, fine, side);
        side = jacobi_smooth(ops, pyramid, k, s.post, raised, s.omega);
        assert(ops@ =~= before + up_ops(pyramid@, k as nat, s, start));
    }
    assert(ops@ =~= old(ops)@ + v_cycle_ops(pyramid@, 0, s, start));
    side
}

// ---------------------------------------------------------------------------
// Laws
// ---------------------------------------------------------------------------

/// The texture belongs to the level.
pub open spec fn level_has(level: MultigridLevel, texture: u32) -> bool {
    texture == level.u_a || texture == level.u_b || texture == level.rhs
}

/// No texture serves twice in the pyramid.
pub open spec fn pyramid_distinct(pyramid: Seq<MultigridLevel>) -> bool {
    &&& forall|i: int|
        0 <= i < pyramid.len() ==> {
            let level = #[trigger] pyramid[i];
            level.u_a != level.u_b && level.u_a != level.rhs && level.u_b != level.rhs
        }
    &&& forall|i: int, j: int, texture: u32|
        0 <= i < pyramid.len() && 0 <= j < pyramid.len() && i != j && #[trigger] level_has(
            pyramid[i],
            texture,
        ) ==> !#[trigger] level_has(pyramid[j], texture)
}

/// The operation leaves the mask channel of every right-hand side as it is.
pub open spec fn keeps_masks(op: GpuOp, pyramid: Seq<MultigridLevel>) -> bool {
    forall|j: int|
        0 <= j < pyramid.len() && op.writes((#[trigger] pyramid[j]).rhs) ==> (op matches GpuOp::Draw(
            d,
        ) && d.channels == Channels::RedOnly)
}

/// What holds of every operation of a V-cycle.
spec fn well_behaved(op: GpuOp, pyramid: Seq<MultigridLevel>) -> bool {
    op.free_of_feedback() && keeps_masks(op, pyramid)
}

spec fn all_well_behaved(ops: Seq<GpuOp>, pyramid: Seq<MultigridLevel>) -> bool {
    forall|i: int| 0 <= i < ops.len() ==> well_behaved(#[trigger] ops[i], pyramid)
}

proof fn lemma_all_concat(a: Seq<GpuOp>, b: Seq<GpuOp>, pyramid: Seq<MultigridLevel>)
    requires
        all_well_behaved(a, pyramid),
        all_well_behaved(b, pyramid),
    ensures
        all_well_behaved(a + b, pyramid),
{
    let c = a + b;
    assert forall|i: int| 0 <= i < c.len() implies well_behaved(#[trigger] c[i], pyramid) by {
        if i < a.len() {
            assert(c[i] == a[i]);
        } else {
            assert(c[i] == b[i - a.len()]);
        }
    }
}

proof fn lemma_solution_is_no_rhs(pyramid: Seq<MultigridLevel>, k: int, side: Side)
    requires
        0 <= k < pyramid.len(),
        pyramid_distinct(pyramid),
    ensures
        forall|j: int|
            0 <= j < pyramid.len() ==> (#[trigger] pyramid[j]).rhs != pyramid[k].solution(side),
{
    let t = pyramid[k].solution(side);
    assert(level_has(pyramid[k], t));
    assert forall|j: int| 0 <= j < pyramid.len() implies (#[trigger] pyramid[j]).rhs != t by {
        assert(level_has(pyramid[j], pyramid[j].rhs));
        if j != k {
            assert(!level_has(pyramid[j], t));
        }
    }
}

proof fn lemma_smooth_well_behaved(
    pyramid: Seq<MultigridLevel>,
    k: nat,
    sweeps: nat,
    omega: F32Bits,
    start: Side,
)
    requires
        k < pyramid.len(),
        pyramid_distinct(pyramid),
    ensures
        all_well_behaved(smooth_ops(pyramid[k as int], k, sweeps, omega, start), pyramid),
{
    let ops = smooth_ops(pyramid[k as int], k, sweeps, omega, start);
    assert forall|i: int| 0 <= i < ops.len() implies well_behaved(#[trigger] ops[i], pyramid) by {
        if i > 0 {
            let from = start.after((i - 1) as nat);
            assert(ops[i] == sweep_op(pyramid[k as int], k, omega, from));
            lemma_solution_is_no_rhs(pyramid, k as int, from.flipped());
        }
    }
}

proof fn lemma_residual_well_behaved(pyramid: Seq<MultigridLevel>, k: nat, side: Side)
    requires
        k + 1 < pyramid.len(),
        pyramid_distinct(pyramid),
    ensures
        all_well_behaved(
            residual_ops(pyramid[k as int], pyramid[k as int + 1], k, side),
            pyramid,
        ),
{
    let fine = pyramid[k as int];
    let coarse = pyramid[k as int + 1];
    lemma_solution_is_no_rhs(pyramid, k as int + 1, Side::A);
    assert(level_has(coarse, coarse.rhs));
    assert(!level_has(fine, coarse.rhs));
}

proof fn lemma_prolongate_well_behaved(
    pyramid: Seq<MultigridLevel>,
    k: nat,
    fine_side: Side,
    coarse_side: Side,
)
    requires
        k + 1 < pyramid.len(),
        pyramid_distinct(pyramid),
    ensures
        well_behaved(
            prolongate_op(pyramid[k as int], pyramid[k as int + 1], fine_side, coarse_side),
            pyramid,
        ),
{
    let fine = pyramid[k as int];
    let coarse = pyramid[k as int + 1];
    lemma_solution_is_no_rhs(pyramid, k as int, fine_side.flipped());
    assert(level_has(coarse, coarse.solution(coarse_side)));
    assert(!level_has(fine, coarse.solution(coarse_side)));
}

proof fn lemma_v_cycle_well_behaved(pyramid: Seq<MultigridLevel>, k: nat, s: Schedule, start: Side)
    requires
        k < pyramid.len(),
        pyramid_distinct(pyramid),
    ensures
        all_well_behaved(v_cycle_ops(pyramid, k, s, start), pyramid),
    decreases pyramid.len() - k,
{
    if k + 1 >= pyramid.len() {
        lemma_smooth_well_behaved(pyramid, k, (2 * s.pre) as nat, s.omega, start);
    } else {
        let side = start.after(s.pre as nat);
        let coarse_side = v_cycle_side(pyramid.len(), k + 1, s, Side::A);
        let a = smooth_ops(pyramid[k as int], k, s.pre as nat, s.omega, start);
        let b = residual_ops(pyramid[k as int], pyramid[k as int + 1], k, side);
        let c = v_cycle_ops(pyramid, k + 1, s, Side::A);
        let d = seq![
            prolongate_op(pyramid[k as int], pyramid[k as int + 1], side, coarse_side),
        ];
        let e = smooth_ops(pyramid[k as int], k, s.post as nat, s.omega, side.flipped());
        lemma_smooth_well_behaved(pyramid, k, s.pre as nat, s.omega, start);
        lemma_residual_well_behaved(pyramid, k, side);
        lemma_v_cycle_well_behaved(pyramid, k + 1, s, Side::A);
        lemma_prolongate_well_behaved(pyramid, k, side, coarse_side);
        lemma_smooth_well_behaved(pyramid, k, s.post as nat, s.omega, side.flipped());
        lemma_all_concat(a, b, pyramid);
        lemma_all_concat(a + b, c, pyramid);
        lemma_all_concat(a + b + c, d, pyramid);
        lemma_all_concat(a + b + c + d, e, pyramid);
    }
}

/// No draw of a V-cycle reads the texture that it writes.
pub proof fn law_v_cycle_free_of_feedback(
    pyramid: Seq<MultigridLevel>,
    s: Schedule,
    start: Side,
)
    requires
        pyramid.len() >= 1,
        pyramid_distinct(pyramid),
    ensures
        plan_free_of_feedback(v_cycle_ops(pyramid, 0, s, start)),
{
    lemma_v_cycle_well_behaved(pyramid, 0, s, start);
    let ops = v_cycle_ops(pyramid, 0, s, start);
    assert forall|i: int| 0 <= i < ops.len() implies (#[trigger] ops[i]).free_of_feedback() by {
        assert(well_behaved(ops[i], pyramid));
    }
}

/// A V-cycle preserves the mask that was restricted through the pyramid: what it
/// writes to a right-hand side, it writes to the first channel alone.
pub proof fn law_v_cycle_keeps_masks(pyramid: Seq<MultigridLevel>, s: Schedule, start: Side)
    requires
        pyramid.len() >= 1,
        pyramid_distinct(pyramid),
    ensures
        forall|i: int|
            0 <= i < v_cycle_ops(pyramid, 0, s, start).len() ==> keeps_masks(
                #[trigger] v_cycle_ops(pyramid, 0, s, start)[i],
                pyramid,
            ),
{
    lemma_v_cycle_well_behaved(pyramid, 0, s, start);
    let ops = v_cycle_ops(pyramid, 0, s, start);
    assert forall|i: int| 0 <= i < ops.len() implies keeps_masks(#[trigger] ops[i], pyramid) by {
        assert(well_behaved(ops[i], pyramid));
    }
}

// ---------------------------------------------------------------------------
// What a V-cycle does to each level
// ---------------------------------------------------------------------------

/// What a plan has done to a level so far.
pub struct LevelState {
    /// The texture that holds the latest solution.
    pub newest: u32,
    /// Jacobi sweeps over the solution.
    pub sweeps: nat,
    /// Residuals of the next finer level.
    pub residuals: nat,
    /// Corrections from the next coarser level.
    pub corrections: nat,
}

/// The state of a level after one more operation.
pub open spec fn level_after(state: LevelState, level: MultigridLevel, op: GpuOp) -> LevelState {
    match op {
        GpuOp::Draw(d) => {
            let solved = d.target == level.u_a || d.target == level.u_b;
            LevelState {
                newest: if solved { d.target } else { state.newest },
                sweeps: if solved && d.pass is Jacobi { state.sweeps + 1 } else { state.sweeps },
                residuals: if d.target == level.rhs && d.pass is ResidualRestrict {
                    state.residuals + 1
                } else {
                    state.residuals
                },
                corrections: if solved && d.pass is Prolongate {
                    state.corrections + 1
                } else {
                    state.corrections
                },
            }
        },
        GpuOp::Clear { target, .. } => if target == level.u_a || target == level.u_b {
            LevelState { newest: target, ..state }
        } else {
            state
        },
        _ => state,
    }
}

/// The state of a level after a plan.
pub open spec fn level_state(ops: Seq<GpuOp>, level: MultigridLevel, first: LevelState) -> LevelState
    decreases ops.len(),
{
    if ops.len() == 0 {
        first
    } else {
        level_after(level_state(ops.drop_last(), level, first), level, ops.last())
    }
}

/// The states of all levels after a plan.
pub open spec fn level_states(
    ops: Seq<GpuOp>,
    pyramid: Seq<MultigridLevel>,
    first: Seq<LevelState>,
) -> Seq<LevelState> {
    Seq::new(pyramid.len(), |k: int| level_state(ops, pyramid[k], first[k]))
}

/// The number of sweeps that a V-cycle owes a level: those before the residual goes
/// down and those after the correction came up, or twice the former on the coarsest.
pub open spec fn owed_sweeps(depth: int, k: int, s: Schedule) -> int {
    if k == depth - 1 {
        2 * s.pre
    } else {
        s.pre + s.post
    }
}

/// A sweep over level `k`: it reads the latest solution and the right-hand side of
/// the level, and writes the other of the two solutions. A coarser level is swept
/// after it received a residual; any but the coarsest gets its sweeps before and its
/// sweeps after the correction.
pub open spec fn sweep_in_place(
    d: Draw,
    pyramid: Seq<MultigridLevel>,
    s: Schedule,
    now: Seq<LevelState>,
    k: int,
) -> bool {
    let level = pyramid[k];
    &&& d.target == level.u_a || d.target == level.u_b
    &&& d.target != now[k].newest
    &&& d.unit0 == Some(
        Binding { texture: now[k].newest, sampling: Sampling::Filtered(Filter::Nearest) },
    )
    &&& d.unit1 matches Some(b) && b.texture == level.rhs
    &&& d.viewport == level.size
    &&& d.channels == Channels::All
    &&& d.pass == (Pass::Jacobi {
        texel: level.size,
        spacing_squared: pow2(2 * k as nat) as u64,
        omega: s.omega,
    })
    &&& now[k].residuals == (if k > 0 { 1nat } else { 0 })
    &&& now[k].sweeps < owed_sweeps(pyramid.len() as int, k, s)
    &&& k < pyramid.len() - 1 && now[k].corrections == 0 ==> now[k].sweeps < s.pre
    &&& k < pyramid.len() - 1 && now[k].corrections > 0 ==> now[k].sweeps >= s.pre
}

/// The residual of level `k` goes to the next coarser one: it is taken from the
/// latest solution, after the first sweeps and before any correction, and replaces
/// the forcing function there and nothing else.
pub open spec fn residual_in_place(
    d: Draw,
    pyramid: Seq<MultigridLevel>,
    s: Schedule,
    now: Seq<LevelState>,
    k: int,
) -> bool {
    let fine = pyramid[k];
    let coarse = pyramid[k + 1];
    &&& d.target == coarse.rhs
    &&& d.unit0 == Some(
        Binding { texture: now[k].newest, sampling: Sampling::Filtered(Filter::Nearest) },
    )
    &&& d.unit1 == Some(
        Binding { texture: fine.rhs, sampling: Sampling::Filtered(Filter::Nearest) },
    )
    &&& d.viewport == coarse.size
    &&& d.channels == Channels::RedOnly
    &&& d.pass == (Pass::ResidualRestrict {
        texel: fine.size,
        spacing_squared: pow2(2 * k as nat) as u64,
    })
    &&& now[k].sweeps == s.pre
    &&& now[k].corrections == 0
    &&& now[k + 1].sweeps == 0
    &&& now[k + 1].residuals == 0
}

/// The correction goes up to level `k`: it is the latest solution of the next coarser
/// level, after all that the V-cycle owes that level, interpolated and added to the
/// latest solution of level `k`, into the other of the two.
pub open spec fn correction_in_place(
    d: Draw,
    pyramid: Seq<MultigridLevel>,
    s: Schedule,
    now: Seq<LevelState>,
    k: int,
) -> bool {
    let fine = pyramid[k];
    &&& d.pass is Prolongate
    &&& d.target == fine.u_a || d.target == fine.u_b
    &&& d.target != now[k].newest
    &&& d.unit0 == Some(
        Binding { texture: now[k].newest, sampling: Sampling::Filtered(Filter::Nearest) },
    )
    &&& d.unit1 == Some(
        Binding { texture: now[k + 1].newest, sampling: Sampling::Clamped(Filter::Linear) },
    )
    &&& d.unit2 == Some(
        Binding { texture: fine.rhs, sampling: Sampling::Filtered(Filter::Nearest) },
    )
    &&& d.viewport == fine.size
    &&& d.channels == Channels::All
    &&& now[k].sweeps == s.pre
    &&& now[k].corrections == 0
    &&& now[k + 1].sweeps == owed_sweeps(pyramid.len() as int, k + 1, s)
    &&& now[k + 1].corrections == (if k + 1 < pyramid.len() - 1 { 1nat } else { 0 })
}

/// The guess on a coarser level is zero, once it has its residual and before it is
/// swept.
pub open spec fn guess_in_place(
    target: u32,
    region: Option<Rect>,
    pyramid: Seq<MultigridLevel>,
    now: Seq<LevelState>,
    k: int,
) -> bool {
    &&& k > 0
    &&& target == pyramid[k].u_a || target == pyramid[k].u_b
    &&& region is None
    &&& now[k].residuals == 1
    &&& now[k].sweeps == 0
}

/// The operation is what a V-cycle owes some level in the given states.
pub open spec fn op_in_place(
    op: GpuOp,
    pyramid: Seq<MultigridLevel>,
    s: Schedule,
    now: Seq<LevelState>,
) -> bool {
    match op {
        GpuOp::Draw(d) => {
            ||| exists|k: int|
                0 <= k < pyramid.len() && #[trigger] sweep_in_place(d, pyramid, s, now, k)
            ||| exists|k: int|
                0 <= k < pyramid.len() - 1 && #[trigger] residual_in_place(d, pyramid, s, now, k)
            ||| exists|k: int|
                0 <= k < pyramid.len() - 1 && #[trigger] correction_in_place(d, pyramid, s, now, k)
        },
        GpuOp::Clear { target, region } => exists|k: int|
            0 <= k < pyramid.len() && #[trigger] guess_in_place(target, region, pyramid, now, k),
        GpuOp::Sample { texture, sampling } => sampling == Sampling::Filtered(Filter::Nearest)
            && exists|k: int| 0 <= k < pyramid.len() && (#[trigger] pyramid[k]).rhs == texture,
        _ => false,
    }
}

/// Every operation of a plan is what a V-cycle owes some level.
#[verifier::opaque]
spec fn plan_in_place(
    ops: Seq<GpuOp>,
    pyramid: Seq<MultigridLevel>,
    s: Schedule,
    first: Seq<LevelState>,
) -> bool {
    forall|at: int|
        0 <= at < ops.len() ==> op_in_place(
            #[trigger] ops[at],
            pyramid,
            s,
            level_states(ops.take(at), pyramid, first),
        )
}

pub proof fn lemma_level_state_concat(
    a: Seq<GpuOp>,
    b: Seq<GpuOp>,
    level: MultigridLevel,
    first: LevelState,
)
    ensures
        level_state(a + b, level, first) == level_state(b, level, level_state(a, level, first)),
    decreases b.len(),
{
    if b.len() == 0 {
        assert(a + b =~= a);
    } else {
        assert((a + b).drop_last() =~= a + b.drop_last());
        lemma_level_state_concat(a, b.drop_last(), level, first);
    }
}

pub proof fn lemma_level_states_concat(
    a: Seq<GpuOp>,
    b: Seq<GpuOp>,
    pyramid: Seq<MultigridLevel>,
    first: Seq<LevelState>,
)
    ensures
        level_states(a + b, pyramid, first) == level_states(
            b,
            pyramid,
            level_states(a, pyramid, first),
        ),
{
    assert forall|k: int| 0 <= k < pyramid.len() implies level_states(a + b, pyramid, first)[k]
        == level_states(b, pyramid, level_states(a, pyramid, first))[k] by {
        lemma_level_state_concat(a, b, pyramid[k], first[k]);
    }
    assert(level_states(a + b, pyramid, first) =~= level_states(
        b,
        pyramid,
        level_states(a, pyramid, first),
    ));
}

proof fn lemma_in_place_concat(
    a: Seq<GpuOp>,
    b: Seq<GpuOp>,
    pyramid: Seq<MultigridLevel>,
    s: Schedule,
    first: Seq<LevelState>,
)
    requires
        plan_in_place(a, pyramid, s, first),
        plan_in_place(b, pyramid, s, level_states(a, pyramid, first)),
    ensures
        plan_in_place(a + b, pyramid, s, first),
{
    reveal(plan_in_place);
    let c = a + b;
    assert forall|at: int| 0 <= at < c.len() implies op_in_place(
        #[trigger] c[at],
        pyramid,
        s,
        level_states(c.take(at), pyramid, first),
    ) by {
        if at < a.len() {
            assert(c[at] == a[at]);
            assert(c.take(at) =~= a.take(at));
        } else {
            let i = at - a.len();
            assert(c[at] == b[i]);
            assert(c.take(at) =~= a + b.take(i));
            lemma_level_states_concat(a, b.take(i), pyramid, first);
        }
    }
}

proof fn lemma_one_in_place(
    op: GpuOp,
    pyramid: Seq<MultigridLevel>,
    s: Schedule,
    first: Seq<LevelState>,
)
    requires
        first.len() == pyramid.len(),
        op_in_place(op, pyramid, s, first),
    ensures
        plan_in_place(seq![op], pyramid, s, first),
        forall|k: int|
            0 <= k < pyramid.len() ==> #[trigger] level_states(seq![op], pyramid, first)[k]
                == level_after(first[k], pyramid[k], op),
{
    reveal(plan_in_place);
    let ops = seq![op];
    assert(ops.take(0) =~= seq![]);
    assert(level_states(ops.take(0), pyramid, first) =~= first);
    assert(ops.drop_last() =~= seq![]);
    assert forall|k: int| 0 <= k < pyramid.len() implies #[trigger] level_states(
        seq![op],
        pyramid,
        first,
    )[k] == level_after(first[k], pyramid[k], op) by {
        assert(level_state(ops.drop_last(), pyramid[k], first[k]) == first[k]);
    }
}

/// An operation that writes a texture of one level does nothing to another.
proof fn lemma_other_levels_stay(pyramid: Seq<MultigridLevel>, op: GpuOp, k: int, j: int, state: LevelState)
    requires
        pyramid_distinct(pyramid),
        0 <= k < pyramid.len(),
        0 <= j < pyramid.len(),
        j != k,
        op is Draw ==> level_has(pyramid[k], op->Draw_0.target),
        op is Clear ==> level_has(pyramid[k], op->Clear_target),
    ensures
        level_after(state, pyramid[j], op) == state,
{
    if op is Draw {
        assert(!level_has(pyramid[j], op->Draw_0.target));
    } else if op is Clear {
        assert(!level_has(pyramid[j], op->Clear_target));
    }
}

/// An operation in its place that writes a texture of one level moves that level on,
/// and no other.
proof fn lemma_step_in_place(
    op: GpuOp,
    pyramid: Seq<MultigridLevel>,
    s: Schedule,
    now: Seq<LevelState>,
    k: int,
)
    requires
        pyramid_distinct(pyramid),
        now.len() == pyramid.len(),
        0 <= k < pyramid.len(),
        op_in_place(op, pyramid, s, now),
        op is Draw ==> level_has(pyramid[k], op->Draw_0.target),
        op is Clear ==> level_has(pyramid[k], op->Clear_target),
    ensures
        plan_in_place(seq![op], pyramid, s, now),
        level_states(seq![op], pyramid, now) == now.update(k, level_after(now[k], pyramid[k], op)),
{
    lemma_one_in_place(op, pyramid, s, now);
    let goal = now.update(k, level_after(now[k], pyramid[k], op));
    assert forall|j: int| 0 <= j < pyramid.len() implies level_states(seq![op], pyramid, now)[j]
        == goal[j] by {
        if j != k {
            lemma_other_levels_stay(pyramid, op, k, j, now[j]);
        }
    }
    assert(level_states(seq![op], pyramid, now) =~= goal);
}

/// A plan in its place goes on with an operation in its place.
proof fn lemma_push_in_place(
    before: Seq<GpuOp>,
    op: GpuOp,
    pyramid: Seq<MultigridLevel>,
    s: Schedule,
    first: Seq<LevelState>,
    now: Seq<LevelState>,
    k: int,
)
    requires
        pyramid_distinct(pyramid),
        first.len() == pyramid.len(),
        0 <= k < pyramid.len(),
        plan_in_place(before, pyramid, s, first),
        now == level_states(before, pyramid, first),
        op_in_place(op, pyramid, s, now),
        op is Draw ==> level_has(pyramid[k], op->Draw_0.target),
        op is Clear ==> level_has(pyramid[k], op->Clear_target),
    ensures
        plan_in_place(before + seq![op], pyramid, s, first),
        level_states(before + seq![op], pyramid, first) == now.update(
            k,
            level_after(now[k], pyramid[k], op),
        ),
{
    lemma_step_in_place(op, pyramid, s, now, k);
    lemma_in_place_concat(before, seq![op], pyramid, s, first);
    lemma_level_states_concat(before, seq![op], pyramid, first);
}

/// A sweep from the latest solution is in its place, and moves its level on.
proof fn lemma_sweep_in_place(
    pyramid: Seq<MultigridLevel>,
    k: int,
    s: Schedule,
    from: Side,
    now: Seq<LevelState>,
)
    requires
        0 <= k < pyramid.len(),
        pyramid[k].u_a != pyramid[k].u_b,
        now[k].newest == pyramid[k].solution(from),
        now[k].residuals == (if k > 0 { 1nat } else { 0 }),
        now[k].sweeps < owed_sweeps(pyramid.len() as int, k, s),
        k < pyramid.len() - 1 && now[k].corrections == 0 ==> now[k].sweeps < s.pre,
        k < pyramid.len() - 1 && now[k].corrections > 0 ==> now[k].sweeps >= s.pre,
    ensures
        op_in_place(sweep_op(pyramid[k], k as nat, s.omega, from), pyramid, s, now),
        pyramid[k].rhs != pyramid[k].u_a && pyramid[k].rhs != pyramid[k].u_b ==> level_after(
            now[k],
            pyramid[k],
            sweep_op(pyramid[k], k as nat, s.omega, from),
        ) == (LevelState {
            newest: pyramid[k].solution(from.flipped()),
            sweeps: now[k].sweeps + 1,
            ..now[k]
        }),
        level_has(pyramid[k], pyramid[k].solution(from.flipped())),
{
    let op = sweep_op(pyramid[k], k as nat, s.omega, from);
    assert(sweep_in_place(op->Draw_0, pyramid, s, now, k));
}

/// No sweeps at all.
proof fn lemma_no_sweeps_in_place(
    pyramid: Seq<MultigridLevel>,
    k: int,
    s: Schedule,
    start: Side,
    first: Seq<LevelState>,
)
    requires
        0 <= k < pyramid.len(),
        first.len() == pyramid.len(),
    ensures
        plan_in_place(smooth_ops(pyramid[k], k as nat, 0, s.omega, start), pyramid, s, first),
        level_states(smooth_ops(pyramid[k], k as nat, 0, s.omega, start), pyramid, first) == first,
{
    let all = smooth_ops(pyramid[k], k as nat, 0, s.omega, start);
    let op = GpuOp::Sample {
        texture: pyramid[k].rhs,
        sampling: Sampling::Filtered(Filter::Nearest),
    };
    assert(all =~= seq![op]);
    lemma_one_in_place(op, pyramid, s, first);
    assert(level_states(all, pyramid, first) =~= first);
}

/// One more sweep goes to the end.
proof fn lemma_smooth_grows(level: MultigridLevel, k: nat, n: nat, omega: F32Bits, start: Side)
    ensures
        smooth_ops(level, k, n + 1, omega, start) == smooth_ops(level, k, n, omega, start) + seq![
            sweep_op(level, k, omega, start.after(n)),
        ],
        start.after(n + 1) == start.after(n).flipped(),
{
    assert(smooth_ops(level, k, n + 1, omega, start) =~= smooth_ops(level, k, n, omega, start)
        + seq![sweep_op(level, k, omega, start.after(n))]);
}

#[verifier::spinoff_prover]
proof fn lemma_smooth_in_place(
    pyramid: Seq<MultigridLevel>,
    k: int,
    sweeps: nat,
    s: Schedule,
    start: Side,
    first: Seq<LevelState>,
)
    requires
        pyramid_distinct(pyramid),
        0 <= k < pyramid.len(),
        first.len() == pyramid.len(),
        first[k].newest == pyramid[k].solution(start),
        first[k].residuals == (if k > 0 { 1nat } else { 0 }),
        first[k].sweeps + sweeps <= owed_sweeps(pyramid.len() as int, k, s),
        k < pyramid.len() - 1 && first[k].corrections == 0 ==> first[k].sweeps + sweeps <= s.pre,
        k < pyramid.len() - 1 && first[k].corrections > 0 ==> first[k].sweeps >= s.pre,
    ensures
        plan_in_place(smooth_ops(pyramid[k], k as nat, sweeps, s.omega, start), pyramid, s, first),
        level_states(smooth_ops(pyramid[k], k as nat, sweeps, s.omega, start), pyramid, first)
            == first.update(
            k,
            LevelState {
                newest: pyramid[k].solution(start.after(sweeps)),
                sweeps: first[k].sweeps + sweeps,
                ..first[k]
            },
        ),
    decreases sweeps,
{
    let level = pyramid[k];
    let all = smooth_ops(level, k as nat, sweeps, s.omega, start);
    let goal = first.update(
        k,
        LevelState {
            newest: level.solution(start.after(sweeps)),
            sweeps: first[k].sweeps + sweeps,
            ..first[k]
        },
    );
    if sweeps == 0 {
        lemma_no_sweeps_in_place(pyramid, k, s, start, first);
        assert(first =~= goal);
    } else {
        let n = (sweeps - 1) as nat;
        let before = smooth_ops(level, k as nat, n, s.omega, start);
        let op = sweep_op(level, k as nat, s.omega, start.after(n));
        lemma_smooth_in_place(pyramid, k, n, s, start, first);
        let now = level_states(before, pyramid, first);
        lemma_smooth_grows(level, k as nat, n, s.omega, start);
        assert(level.u_a != level.u_b && level.u_a != level.rhs && level.u_b != level.rhs);
        lemma_sweep_in_place(pyramid, k, s, start.after(n), now);
        lemma_push_in_place(before, op, pyramid, s, first, now, k);
        assert(now.update(k, level_after(now[k], level, op)) =~= goal);
    }
}

/// The states from which a V-cycle from level `k` down can start.
spec fn ready_from(
    pyramid: Seq<MultigridLevel>,
    k: int,
    start: Side,
    first: Seq<LevelState>,
) -> bool {
    &&& first.len() == pyramid.len()
    &&& first[k].newest == pyramid[k].solution(start)
    &&& first[k].residuals == (if k > 0 { 1nat } else { 0 })
    &&& forall|j: int|
        k <= j < pyramid.len() ==> (#[trigger] first[j]).sweeps == 0 && first[j].corrections == 0
            && (j > k ==> first[j].residuals == 0)
}

/// The states in which a V-cycle from level `k` down ends.
spec fn done_from(
    pyramid: Seq<MultigridLevel>,
    k: int,
    s: Schedule,
    first: Seq<LevelState>,
    last: Seq<LevelState>,
) -> bool {
    &&& last.len() == pyramid.len()
    &&& forall|j: int| 0 <= j < k ==> #[trigger] last[j] == first[j]
    &&& forall|j: int|
        k <= j < pyramid.len() ==> {
            &&& (#[trigger] last[j]).sweeps == owed_sweeps(pyramid.len() as int, j, s)
            &&& last[j].residuals == (if j > 0 { 1nat } else { 0 })
            &&& last[j].corrections == (if j < pyramid.len() - 1 { 1nat } else { 0 })
        }
}

proof fn lemma_residual_in_place(
    pyramid: Seq<MultigridLevel>,
    k: int,
    s: Schedule,
    side: Side,
    first: Seq<LevelState>,
)
    requires
        pyramid_distinct(pyramid),
        0 <= k < pyramid.len() - 1,
        first.len() == pyramid.len(),
        first[k].newest == pyramid[k].solution(side),
        first[k].sweeps == s.pre,
        first[k].corrections == 0,
        first[k + 1].sweeps == 0,
        first[k + 1].residuals == 0,
    ensures
        plan_in_place(
            residual_ops(pyramid[k], pyramid[k + 1], k as nat, side),
            pyramid,
            s,
            first,
        ),
        level_states(residual_ops(pyramid[k], pyramid[k + 1], k as nat, side), pyramid, first)
            == first.update(
            k + 1,
            LevelState { newest: pyramid[k + 1].u_a, residuals: 1, ..first[k + 1] },
        ),
{
    let all = residual_ops(pyramid[k], pyramid[k + 1], k as nat, side);
    let coarse = pyramid[k + 1];
    let restrict = all[0];
    let clear = all[1];
    let goal = first.update(
        k + 1,
        LevelState { newest: coarse.u_a, residuals: 1, ..first[k + 1] },
    );
    assert(all =~= seq![restrict] + seq![clear]);
    assert(coarse.u_a != coarse.u_b && coarse.u_a != coarse.rhs && coarse.u_b != coarse.rhs);
    assert(residual_in_place(restrict->Draw_0, pyramid, s, first, k));
    lemma_step_in_place(restrict, pyramid, s, first, k + 1);
    let now = level_states(seq![restrict], pyramid, first);
    assert(now[k + 1].residuals == 1 && now[k + 1].sweeps == 0);
    assert(guess_in_place(clear->Clear_target, clear->Clear_region, pyramid, now, k + 1));
    lemma_push_in_place(seq![restrict], clear, pyramid, s, first, now, k + 1);
    assert(level_states(all, pyramid, first) =~= goal);
}

proof fn lemma_prolongate_in_place(
    pyramid: Seq<MultigridLevel>,
    k: int,
    s: Schedule,
    side: Side,
    coarse_side: Side,
    first: Seq<LevelState>,
)
    requires
        pyramid_distinct(pyramid),
        0 <= k < pyramid.len() - 1,
        first.len() == pyramid.len(),
        first[k].newest == pyramid[k].solution(side),
        first[k].sweeps == s.pre,
        first[k].corrections == 0,
        first[k + 1].newest == pyramid[k + 1].solution(coarse_side),
        first[k + 1].sweeps == owed_sweeps(pyramid.len() as int, k + 1, s),
        first[k + 1].corrections == (if k + 1 < pyramid.len() - 1 { 1nat } else { 0 }),
    ensures
        plan_in_place(
            seq![prolongate_op(pyramid[k], pyramid[k + 1], side, coarse_side)],
            pyramid,
            s,
            first,
        ),
        level_states(
            seq![prolongate_op(pyramid[k], pyramid[k + 1], side, coarse_side)],
            pyramid,
            first,
        ) == first.update(
            k,
            LevelState {
                newest: pyramid[k].solution(side.flipped()),
                corrections: 1,
                ..first[k]
            },
        ),
{
    let op = prolongate_op(pyramid[k], pyramid[k + 1], side, coarse_side);
    let goal = first.update(
        k,
        LevelState { newest: pyramid[k].solution(side.flipped()), corrections: 1, ..first[k] },
    );
    assert(pyramid[k].u_a != pyramid[k].u_b);
    assert(pyramid[k].u_a != pyramid[k].rhs && pyramid[k].u_b != pyramid[k].rhs);
    assert(correction_in_place(op->Draw_0, pyramid, s, first, k));
    lemma_step_in_place(op, pyramid, s, first, k);
    assert(level_states(seq![op], pyramid, first) =~= goal);
}

/// Five plans that follow each other, each in its place after those before it.
proof fn lemma_five_in_place(
    a: Seq<GpuOp>,
    b: Seq<GpuOp>,
    c: Seq<GpuOp>,
    d: Seq<GpuOp>,
    e: Seq<GpuOp>,
    pyramid: Seq<MultigridLevel>,
    s: Schedule,
    first: Seq<LevelState>,
)
    requires
        plan_in_place(a, pyramid, s, first),
        plan_in_place(b, pyramid, s, level_states(a, pyramid, first)),
        plan_in_place(c, pyramid, s, level_states(a + b, pyramid, first)),
        plan_in_place(d, pyramid, s, level_states(a + b + c, pyramid, first)),
        plan_in_place(e, pyramid, s, level_states(a + b + c + d, pyramid, first)),
    ensures
        plan_in_place(a + b + c + d + e, pyramid, s, first),
{
    lemma_in_place_concat(a, b, pyramid, s, first);
    lemma_in_place_concat(a + b, c, pyramid, s, first);
    lemma_in_place_concat(a + b + c, d, pyramid, s, first);
    lemma_in_place_concat(a + b + c + d, e, pyramid, s, first);
}

#[verifier::spinoff_prover]
#[verifier::rlimit(40)]
proof fn lemma_v_cycle_in_place(
    pyramid: Seq<MultigridLevel>,
    k: int,
    s: Schedule,
    start: Side,
    first: Seq<LevelState>,
)
    requires
        pyramid_distinct(pyramid),
        0 <= k < pyramid.len(),
        ready_from(pyramid, k, start, first),
    ensures
        plan_in_place(v_cycle_ops(pyramid, k as nat, s, start), pyramid, s, first),
        done_from(
            pyramid,
            k,
            s,
            first,
            level_states(v_cycle_ops(pyramid, k as nat, s, start), pyramid, first),
        ),
        level_states(v_cycle_ops(pyramid, k as nat, s, start), pyramid, first)[k].newest
            == pyramid[k].solution(v_cycle_side(pyramid.len(), k as nat, s, start)),
    decreases pyramid.len() - k,
{
    let depth = pyramid.len() as int;
    if k == depth - 1 {
        lemma_smooth_in_place(pyramid, k, (2 * s.pre) as nat, s, start, first);
    } else {
        let side = start.after(s.pre as nat);
        let coarse_side = v_cycle_side(pyramid.len(), (k + 1) as nat, s, Side::A);
        let a = smooth_ops(pyramid[k], k as nat, s.pre as nat, s.omega, start);
        let b = residual_ops(pyramid[k], pyramid[k + 1], k as nat, side);
        let c = v_cycle_ops(pyramid, (k + 1) as nat, s, Side::A);
        let d = seq![prolongate_op(pyramid[k], pyramid[k + 1], side, coarse_side)];
        let e = smooth_ops(pyramid[k], k as nat, s.post as nat, s.omega, side.flipped());
        lemma_smooth_in_place(pyramid, k, s.pre as nat, s, start, first);
        let sa = level_states(a, pyramid, first);
        assert(first[k + 1].sweeps == 0);
        lemma_residual_in_place(pyramid, k, s, side, sa);
        let sb = level_states(b, pyramid, sa);
        assert forall|j: int| k + 1 <= j < pyramid.len() implies (#[trigger] sb[j]).sweeps == 0
            && sb[j].corrections == 0 && (j > k + 1 ==> sb[j].residuals == 0) by {
            assert(first[j].sweeps == 0);
        }
        lemma_v_cycle_in_place(pyramid, k + 1, s, Side::A, sb);
        let sc = level_states(c, pyramid, sb);
        assert(sc[k] == sb[k]);
        assert(sc[k + 1].sweeps == owed_sweeps(depth, k + 1, s));
        lemma_prolongate_in_place(pyramid, k, s, side, coarse_side, sc);
        let sd = level_states(d, pyramid, sc);
        lemma_smooth_in_place(pyramid, k, s.post as nat, s, side.flipped(), sd);
        let se = level_states(e, pyramid, sd);
        lemma_level_states_concat(a, b, pyramid, first);
        lemma_level_states_concat(a + b, c, pyramid, first);
        lemma_level_states_concat(a + b + c, d, pyramid, first);
        lemma_level_states_concat(a + b + c + d, e, pyramid, first);
        lemma_five_in_place(a, b, c, d, e, pyramid, s, first);
        assert(v_cycle_ops(pyramid, k as nat, s, start) == a + b + c + d + e);
        assert forall|j: int| 0 <= j < k implies #[trigger] se[j] == first[j] by {
            assert(sc[j] == sb[j]);
        }
        assert forall|j: int| k <= j < depth implies {
            &&& (#[trigger] se[j]).sweeps == owed_sweeps(depth, j, s)
            &&& se[j].residuals == (if j > 0 { 1nat } else { 0 })
            &&& se[j].corrections == (if j < depth - 1 { 1nat } else { 0 })
        } by {
            if j > k {
                assert(se[j] == sc[j]);
            }
        }
    }
}

/// Nothing has been done to any level yet; the finest starts from the given side.
pub open spec fn untouched(pyramid: Seq<MultigridLevel>, start: Side, first: Seq<LevelState>) -> bool {
    &&& first.len() == pyramid.len()
    &&& first[0].newest == (if start is A { pyramid[0].u_a } else { pyramid[0].u_b })
    &&& forall|k: int|
        0 <= k < first.len() ==> (#[trigger] first[k]).sweeps == 0 && first[k].residuals == 0
            && first[k].corrections == 0
}

/// Every draw of a V-cycle works on the latest solutions: a sweep reads the latest of
/// its level, a residual is that of the latest, and a correction adds the latest of
/// the coarser level, once that has had all its sweeps, to the latest of the finer.
/// What is written is always the other of the two textures of a level.
pub proof fn law_v_cycle_works_on_the_latest(
    pyramid: Seq<MultigridLevel>,
    s: Schedule,
    start: Side,
    first: Seq<LevelState>,
    at: int,
)
    requires
        pyramid.len() >= 1,
        pyramid_distinct(pyramid),
        untouched(pyramid, start, first),
        0 <= at < v_cycle_ops(pyramid, 0, s, start).len(),
    ensures
        op_in_place(
            v_cycle_ops(pyramid, 0, s, start)[at],
            pyramid,
            s,
            level_states(v_cycle_ops(pyramid, 0, s, start).take(at), pyramid, first),
        ),
{
    reveal(plan_in_place);
    lemma_v_cycle_in_place(pyramid, 0, s, start, first);
}

/// A V-cycle gives every level what it is owed: its sweeps, one residual on each but
/// the finest, one correction on each but the coarsest. The side that it ends with is
/// that of the latest solution of the finest level.
pub proof fn law_v_cycle_visits_every_level(
    pyramid: Seq<MultigridLevel>,
    s: Schedule,
    start: Side,
    first: Seq<LevelState>,
    k: int,
)
    requires
        pyramid.len() >= 1,
        pyramid_distinct(pyramid),
        untouched(pyramid, start, first),
        0 <= k < pyramid.len(),
    ensures
        ({
            let ops = v_cycle_ops(pyramid, 0, s, start);
            let end = level_state(ops, pyramid[k], first[k]);
            &&& end.sweeps == (if k == pyramid.len() - 1 { 2 * s.pre } else { s.pre + s.post })
            &&& end.residuals == (if k > 0 { 1nat } else { 0 })
            &&& end.corrections == (if k < pyramid.len() - 1 { 1nat } else { 0 })
            &&& k == 0 ==> end.newest == (if v_cycle_side(pyramid.len(), 0, s, start) is A {
                pyramid[0].u_a
            } else {
                pyramid[0].u_b
            })
        }),
{
    lemma_v_cycle_in_place(pyramid, 0, s, start, first);
    let last = level_states(v_cycle_ops(pyramid, 0, s, start), pyramid, first);
    assert(last[k] == level_state(v_cycle_ops(pyramid, 0, s, start), pyramid[k], first[k]));
}

/// Before the solve the solution of every level is cleared, the whole of it, and nothing
/// else.
pub proof fn law_every_guess_is_zero(pyramid: Seq<MultigridLevel>, k: int)
    requires
        0 <= k < pyramid.len(),
    ensures
        zero_guess_ops(pyramid).len() == pyramid.len(),
        zero_guess_ops(pyramid)[k] == (GpuOp::Clear { target: pyramid[k].u_a, region: None }),
{
}


/// A smoothing reads its right-hand side texel by texel, and sweeps as often as it is
/// asked to: the first sweep starts from the given side, each further one from what the
/// one before it wrote, and the side that holds the outcome is the last that was written.
pub proof fn law_sweeps_follow_each_other(
    level: MultigridLevel,
    k: nat,
    sweeps: nat,
    omega: F32Bits,
    start: Side,
    i: int,
)
    requires
        0 < i <= sweeps,
    ensures
        ({
            let ops = smooth_ops(level, k, sweeps, omega, start);
            &&& ops.len() == sweeps + 1
            &&& ops[0] == (GpuOp::Sample {
                texture: level.rhs,
                sampling: Sampling::Filtered(Filter::Nearest),
            })
            &&& ops[i] matches GpuOp::Draw(d) && d.unit0 matches Some(read) && {
                &&& d.pass is Jacobi
                &&& i == 1 ==> read.texture == (if start is A { level.u_a } else { level.u_b })
                &&& i > 1 ==> (ops[i - 1] matches GpuOp::Draw(e) && read.texture == e.target)
                &&& i == sweeps ==> d.target == (if start.after(sweeps) is A {
                    level.u_a
                } else {
                    level.u_b
                })
            }
        }),
{
    let ops = smooth_ops(level, k, sweeps, omega, start);
    assert(ops[i] == sweep_op(level, k, omega, start.after((i - 1) as nat)));
    if i > 1 {
        assert(ops[i - 1] == sweep_op(level, k, omega, start.after((i - 2) as nat)));
    }
}

} // verus!
