use niri_effects::gpu::{Channels, Edges, Extent, Filter, GpuOp, Pass, Rect, Sampling};
use niri_effects::jfa::{
    blit_to_mask_texture, clear_mask_texture_region, jfa_init_pass, pyramid_sizes, region_bbox,
    render_binary_mask, render_jfa_mask, run_jfa_steps, JfaTextures, RegionMask, RegionSpan,
};
use niri_effects::multigrid::{run_v_cycle, MultigridLevel, Schedule, Side};
use niri_effects::float_bits::F32Bits;

fn size(w: i32, h: i32) -> Extent {
    Extent { w, h }
}

#[test]
fn pyramid_ends_at_a_coarse_grid() {
    assert_eq!(pyramid_sizes(size(8, 8)), vec![size(8, 8)]);
    assert_eq!(pyramid_sizes(size(9, 4)), vec![size(9, 4), size(4, 2)]);
    assert_eq!(pyramid_sizes(size(100, 1)).last(), Some(&size(6, 1)));
    assert_eq!(pyramid_sizes(size(1 << 30, 1)).len(), 12);
}

#[test]
fn box_gets_a_border_within_the_source() {
    let span = |x, y, w, h| RegionSpan { x, y, w, h };
    let source = size(100, 50);
    assert_eq!(
        region_bbox(span(10, 20, 30, 5), source),
        Some(Rect { x: 9, y: 19, w: 32, h: 7 })
    );
    assert_eq!(
        region_bbox(span(0, 0, 100, 50), source),
        Some(Rect { x: 0, y: 0, w: 100, h: 50 })
    );
    assert_eq!(
        region_bbox(span(5, 5, -10, -10), source),
        Some(Rect { x: 4, y: 4, w: 1, h: 1 })
    );
    assert_eq!(region_bbox(span(200, 0, 10, 10), source), None);
}

#[test]
fn flooding_halves_its_steps() {
    let mut ops = Vec::new();
    let outcome = run_jfa_steps(&mut ops, 1, 2, size(10, 3));
    let steps: Vec<(i32, u32, u32)> = ops
        .iter()
        .map(|op| match op {
            GpuOp::Draw(d) => match d.pass {
                Pass::JfaStep { step, .. } => (step, d.unit0.unwrap().texture, d.target),
                _ => panic!("not a step"),
            },
            _ => panic!("not a draw"),
        })
        .collect();
    assert_eq!(steps, vec![(8, 1, 2), (4, 2, 1), (2, 1, 2), (1, 2, 1)]);
    assert_eq!(outcome, 1);
}

#[test]
fn flooding_of_one_pixel_is_one_step() {
    let mut ops = Vec::new();
    assert_eq!(run_jfa_steps(&mut ops, 1, 2, size(1, 1)), 2);
    assert_eq!(ops.len(), 1);
    let mut ops = Vec::new();
    jfa_init_pass(&mut ops, 5, 6, size(4, 4));
    assert_eq!(ops.len(), 2);
}

#[test]
fn an_empty_region_is_not_cleared() {
    let mut ops = Vec::new();
    clear_mask_texture_region(&mut ops, 1, Rect { x: 0, y: 0, w: 0, h: 5 });
    assert!(ops.is_empty());
    let region = Rect { x: 1, y: 2, w: 3, h: 4 };
    clear_mask_texture_region(&mut ops, 1, region);
    assert_eq!(ops, vec![GpuOp::Clear { target: 1, region: Some(region) }]);
}

#[test]
fn binary_mask_has_an_exterior_border() {
    let mut ops = Vec::new();
    render_binary_mask(&mut ops, 1, 2, 3, Rect { x: 4, y: 5, w: 10, h: 8 });
    assert_eq!(ops.len(), 7);
    let clear = |x, y, w, h| GpuOp::Clear { target: 1, region: Some(Rect { x, y, w, h }) };
    assert_eq!(ops[0], GpuOp::Clear { target: 1, region: None });
    assert_eq!(ops[2], clear(0, 0, 1, 8));
    assert_eq!(ops[3], clear(9, 0, 1, 8));
    assert_eq!(ops[4], clear(0, 0, 10, 1));
    assert_eq!(ops[5], clear(0, 7, 10, 1));
    assert_eq!(
        ops[6],
        GpuOp::Sample { texture: 1, sampling: Sampling::Clamped(Filter::Nearest) }
    );
}

#[test]
fn field_lands_on_the_union_of_the_rectangles() {
    let edges = |x1, y1, x2, y2| Edges { x1, y1, x2, y2 };
    let bbox = Rect { x: 9, y: 19, w: 32, h: 7 };
    let mut ops = Vec::new();
    let rects = vec![edges(10, 20, 30, 24), edges(-5, 22, 140, 25)];
    blit_to_mask_texture(&mut ops, 1, 2, &rects, bbox, size(100, 50));
    blit_to_mask_texture(&mut ops, 1, 2, &Vec::new(), bbox, size(100, 50));
    assert_eq!(
        ops,
        vec![
            GpuOp::Blit {
                source: 1,
                target: 2,
                from: edges(1, 1, 31, 6),
                to: edges(0, 20, 100, 25),
            },
            GpuOp::Blit {
                source: 1,
                target: 2,
                from: edges(1, 1, 31, 6),
                to: edges(10, 20, 40, 25),
            },
        ]
    );
}

fn textures(w: i32, h: i32) -> JfaTextures {
    let pyramid = pyramid_sizes(size(w, h))
        .into_iter()
        .enumerate()
        .map(|(k, size)| {
            let id = 100 + 3 * k as u32;
            MultigridLevel { u_a: id, u_b: id + 1, rhs: id + 2, size }
        })
        .collect();
    JfaTextures { bin: 1, jfa_a: 2, jfa_b: 3, pyramid, encoded: 4, size: size(w, h) }
}

fn region() -> RegionMask {
    RegionMask {
        mask: 50,
        bbox: Rect { x: 2, y: 3, w: 20, h: 12 },
        source: size(100, 50),
        rects_texture: 60,
        instances: 1,
    }
}

#[test]
fn a_valid_field_is_only_placed() {
    let t = textures(20, 12);
    let rects = vec![Edges { x1: 3, y1: 4, x2: 21, y2: 14 }];
    let previous = Rect { x: 7, y: 8, w: 20, h: 12 };
    let mut ops = Vec::new();
    render_jfa_mask(&mut ops, &t, region(), &rects, true, Some(previous), true);
    assert_eq!(ops.len(), 3);
    assert_eq!(ops[0], GpuOp::Clear { target: 50, region: Some(previous) });
    assert!(matches!(ops[1], GpuOp::Blit { source: 4, target: 50, .. }));
    assert_eq!(
        ops[2],
        GpuOp::Sample { texture: 50, sampling: Sampling::Clamped(Filter::Linear) }
    );
    let mut ops = Vec::new();
    render_jfa_mask(&mut ops, &t, region(), &rects, true, None, true);
    assert_eq!(ops[0], GpuOp::Clear { target: 50, region: None });
    assert_eq!(ops.len(), 3);
}

#[test]
fn without_programs_the_mask_is_only_cleared() {
    let t = textures(20, 12);
    let mut ops = Vec::new();
    render_jfa_mask(&mut ops, &t, region(), &Vec::new(), false, None, false);
    assert_eq!(ops, vec![GpuOp::Clear { target: 50, region: None }]);
}

#[test]
fn a_new_field_is_encoded_and_placed() {
    let t = textures(20, 12);
    let mut ops = Vec::new();
    render_jfa_mask(&mut ops, &t, region(), &Vec::new(), false, None, true);
    let draws: Vec<Pass> = ops
        .iter()
        .filter_map(|op| match op {
            GpuOp::Draw(d) => Some(d.pass),
            _ => None,
        })
        .collect();
    assert!(matches!(draws[0], Pass::BinaryMask { instances: 1, origin_x: 2, origin_y: 3, .. }));
    assert!(matches!(draws[1], Pass::JfaInit { .. }));
    assert!(matches!(draws[2], Pass::JfaStep { step: 16, .. }));
    assert!(draws.contains(&Pass::PoissonRhs { double_distance: 12 }));
    assert!(draws.contains(&Pass::Encode { output: size(20, 12), double_distance: 12 }));
    assert_eq!(draws.last(), Some(&Pass::Smooth { output: size(20, 12) }));
    // Twenty by twelve is halved once and twice: ten by six, five by three.
    assert_eq!(t.pyramid.len(), 3);
    assert!(matches!(ops[ops.len() - 2], GpuOp::Blit { source: 4, target: 50, .. }));
}

#[test]
fn poisson_schedule_of_a_large_box_is_short() {
    let t = textures(1920, 1080);
    let r = RegionMask {
        bbox: Rect { x: 0, y: 0, w: 1920, h: 1080 },
        source: size(1920, 1080),
        ..region()
    };
    let mut ops = Vec::new();
    render_jfa_mask(&mut ops, &t, r, &Vec::new(), false, None, true);
    let count = ops
        .iter()
        .filter(|op| match op {
            GpuOp::Draw(d) => matches!(
                d.pass,
                Pass::Jacobi { .. }
                    | Pass::ResidualRestrict { .. }
                    | Pass::Prolongate
                    | Pass::Smooth { .. }
            ),
            _ => false,
        })
        .count();
    assert_eq!(count, 71);
}

#[test]
fn v_cycle_of_one_level_smooths_twice_as_long() {
    let pyramid = textures(8, 8).pyramid;
    let schedule = Schedule { pre: 3, post: 3, omega: F32Bits { bits: 0.8f32.to_bits() } };
    let mut ops = Vec::new();
    let side = run_v_cycle(&mut ops, &pyramid, schedule, Side::A);
    let sweeps = ops
        .iter()
        .filter(|op| matches!(op, GpuOp::Draw(d) if matches!(d.pass, Pass::Jacobi { .. })))
        .count();
    assert_eq!(sweeps, 6);
    assert_eq!(side, Side::A);
}

#[test]
fn v_cycle_goes_down_and_up_again() {
    let pyramid = textures(9, 4).pyramid;
    let schedule = Schedule { pre: 1, post: 2, omega: F32Bits { bits: 0.8f32.to_bits() } };
    let mut ops = Vec::new();
    run_v_cycle(&mut ops, &pyramid, schedule, Side::A);
    let draws: Vec<(&str, u32)> = ops
        .iter()
        .filter_map(|op| match op {
            GpuOp::Draw(d) => Some((
                match d.pass {
                    Pass::Jacobi { .. } => "sweep",
                    Pass::ResidualRestrict { .. } => "residual",
                    Pass::Prolongate => "prolongate",
                    _ => "other",
                },
                d.target,
            )),
            _ => None,
        })
        .collect();
    assert_eq!(
        draws,
        vec![
            ("sweep", 101),
            ("residual", 105),
            ("sweep", 104),
            ("sweep", 103),
            ("prolongate", 100),
            ("sweep", 101),
            ("sweep", 100),
        ]
    );
}

#[test]
fn v_cycle_keeps_the_masks_of_the_levels() {
    let pyramid = textures(100, 60).pyramid;
    let schedule = Schedule { pre: 3, post: 3, omega: F32Bits { bits: 0.8f32.to_bits() } };
    let mut ops = Vec::new();
    run_v_cycle(&mut ops, &pyramid, schedule, Side::A);
    let mut restricted = 0;
    for op in &ops {
        match op {
            GpuOp::Draw(d) if pyramid.iter().any(|l| l.rhs == d.target) => {
                assert_eq!(d.channels, Channels::RedOnly);
                restricted += 1;
            }
            GpuOp::Clear { target, .. } => assert!(pyramid.iter().all(|l| l.rhs != *target)),
            _ => {}
        }
    }
    assert_eq!(restricted, pyramid.len() - 1);
}
