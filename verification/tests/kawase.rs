use niri_effects::float_bits::F32Bits;
use niri_effects::gpu::{
    Binding, Channels, Draw, Extent, Filter, GpuOp, Pass, Sampling, Texture,
};
use niri_effects::kawase::{
    clamp_passes, drop_unfit_chain, next_link, run_dual_kawase_blur, trim_chain,
};

fn size(w: i32, h: i32) -> Extent {
    Extent { w, h }
}

fn texture(id: u32, w: i32, h: i32) -> Texture {
    Texture { id, size: size(w, h) }
}

fn complete(chain: &mut Vec<Texture>, source: Extent, passes: usize) {
    let mut id = 100;
    while let Some(size) = next_link(chain, source, passes) {
        chain.push(Texture { id, size });
        id += 1;
    }
}

#[test]
fn passes_are_clamped_between_one_and_the_limit() {
    assert_eq!(clamp_passes(0), 1);
    assert_eq!(clamp_passes(1), 1);
    assert_eq!(clamp_passes(31), 31);
    assert_eq!(clamp_passes(32), 31);
    assert_eq!(clamp_passes(255), 31);
}

#[test]
fn chain_halves_down_to_one_pixel() {
    let mut chain = Vec::new();
    complete(&mut chain, size(10, 3), 5);
    let sizes: Vec<(i32, i32)> = chain.iter().map(|t| (t.size.w, t.size.h)).collect();
    assert_eq!(sizes, vec![(10, 3), (5, 1), (2, 1), (1, 1), (1, 1), (1, 1)]);
}

#[test]
fn chain_of_an_empty_source_keeps_its_first_size() {
    let mut chain = Vec::new();
    complete(&mut chain, size(0, 0), 1);
    let sizes: Vec<(i32, i32)> = chain.iter().map(|t| (t.size.w, t.size.h)).collect();
    assert_eq!(sizes, vec![(0, 0), (1, 1)]);
}

#[test]
fn chain_is_dropped_when_the_size_changes_or_the_output_is_shared() {
    let mut chain = vec![texture(1, 8, 8), texture(2, 4, 4)];
    drop_unfit_chain(&mut chain, size(8, 8), true);
    assert_eq!(chain.len(), 2);
    drop_unfit_chain(&mut chain, size(8, 8), false);
    assert_eq!(chain.len(), 0);

    let mut chain = vec![texture(1, 8, 8), texture(2, 4, 4)];
    drop_unfit_chain(&mut chain, size(8, 9), true);
    assert_eq!(chain.len(), 0);
}

#[test]
fn chain_only_grows_by_what_it_lacks_and_is_trimmed() {
    let mut chain = vec![texture(1, 8, 8), texture(2, 4, 4), texture(3, 2, 2)];
    assert_eq!(next_link(&chain, size(8, 8), 2), None);
    assert_eq!(next_link(&chain, size(8, 8), 3), Some(size(1, 1)));
    trim_chain(&mut chain, 1);
    assert_eq!(chain, vec![texture(1, 8, 8), texture(2, 4, 4)]);
}

fn draw(pass: Pass, target: u32, viewport: Extent, from: u32, mask: u32) -> GpuOp {
    GpuOp::Draw(Draw {
        pass,
        target,
        viewport,
        unit0: Some(Binding { texture: from, sampling: Sampling::Clamped(Filter::Linear) }),
        unit1: Some(Binding { texture: mask, sampling: Sampling::Keep }),
        unit2: None,
        channels: Channels::All,
    })
}

#[test]
fn dual_kawase_goes_down_and_up_between_source_and_output() {
    let chain = vec![texture(1, 8, 6), texture(2, 4, 3), texture(3, 2, 1)];
    let offset = F32Bits { bits: 1.5f32.to_bits() };
    let mut ops = Vec::new();
    run_dual_kawase_blur(&mut ops, &chain, 50, 60, 2, offset, 70);
    assert_eq!(
        ops,
        vec![
            GpuOp::Sample { texture: 70, sampling: Sampling::Clamped(Filter::Linear) },
            draw(Pass::KawaseDown { offset, half_pixel: size(4, 3) }, 2, size(4, 3), 50, 70),
            draw(Pass::KawaseDown { offset, half_pixel: size(2, 1) }, 3, size(2, 1), 2, 70),
            draw(Pass::KawaseUp { offset, half_pixel: size(2, 1) }, 2, size(4, 3), 3, 70),
            draw(Pass::KawaseUp { offset, half_pixel: size(4, 3) }, 60, size(8, 6), 2, 70),
        ]
    );
}

#[test]
fn a_longer_chain_is_used_no_further_than_the_passes_need() {
    let chain = vec![texture(1, 8, 8), texture(2, 4, 4), texture(3, 2, 2), texture(4, 1, 1)];
    let offset = F32Bits { bits: 0 };
    let mut ops = Vec::new();
    run_dual_kawase_blur(&mut ops, &chain, 50, 60, 1, offset, 70);
    assert_eq!(
        ops,
        vec![
            GpuOp::Sample { texture: 70, sampling: Sampling::Clamped(Filter::Linear) },
            draw(Pass::KawaseDown { offset, half_pixel: size(4, 4) }, 2, size(4, 4), 50, 70),
            draw(Pass::KawaseUp { offset, half_pixel: size(4, 4) }, 60, size(8, 8), 2, 70),
        ]
    );
}
