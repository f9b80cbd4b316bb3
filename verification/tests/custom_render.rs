use niri_effects::blur::{Blur, BlurOutput, Programs, RenderError};
use niri_effects::blur_options::{BlurConfig, BlurOptions, SubregionRects};
use niri_effects::blur_program::{BlurProgram, CustomBlurProgram};
use niri_effects::custom_blur::{MaskPassStep, PipelineConfig, RenderPassStep};
use niri_effects::custom_render::{
    max_kawase_passes, BuiltinProgram, CustomFrame, Format, TextureRequest,
};
use niri_effects::float_bits::{F32Bits, F64Bits};
use niri_effects::gpu::{Edges, Extent, GpuOp, Pair, Pass, Quad, Rect, Texture};
use niri_effects::jfa::RegionSpan;

fn bits(x: f32) -> F32Bits {
    F32Bits { bits: x.to_bits() }
}

fn quad(x: f32, y: f32, z: f32, w: f32) -> Quad {
    Quad { x: bits(x), y: bits(y), z: bits(z), w: bits(w) }
}

fn size(w: i32, h: i32) -> Extent {
    Extent { w, h }
}

fn custom_mask() -> MaskPassStep {
    MaskPassStep::Custom {
        name: "m".to_owned(),
        source: "m".to_owned(),
        scale: bits(1.0),
    }
}

fn custom_step() -> RenderPassStep {
    RenderPassStep::Custom {
        name: "r".to_owned(),
        source: "r".to_owned(),
        scale: bits(0.5),
    }
}

fn program(id: u64, masks: Vec<MaskPassStep>, renders: Vec<RenderPassStep>) -> CustomBlurProgram {
    let config = PipelineConfig { mask_passes: masks, render_passes: renders };
    CustomBlurProgram::compile(id, &config, &(900..930).collect()).unwrap()
}

fn options(rects_id: u64, count: usize) -> BlurOptions {
    let config = BlurConfig {
        passes: 2,
        offset: F64Bits { bits: 2.0f64.to_bits() },
        shader_pipeline: None,
    };
    BlurOptions::from(config, 0)
        .with_geometry(Pair { x: bits(100.0), y: bits(50.0) }, quad(4.0, 4.0, 4.0, 4.0))
        .with_subregion_rects(SubregionRects {
            id: rects_id,
            rects: vec![quad(0.1, 0.2, 0.5, 0.6); count],
        })
}

const SOURCE: u32 = 1;

/// What happens around a frame.
struct Stage {
    blur: Blur,
    next_id: u32,
    source: Extent,
    /// Where the subregions begin.
    origin: (i32, i32),
    close: bool,
    compiles: bool,
    requests: Vec<TextureRequest>,
    compiled: Vec<BuiltinProgram>,
}

impl Stage {
    fn new() -> Stage {
        Stage {
            blur: Blur::new(Some(BlurProgram { down: 1, up: 2 }), 42).unwrap(),
            next_id: 10,
            source: size(100, 50),
            origin: (10, 10),
            close: true,
            compiles: true,
            requests: Vec::new(),
            compiled: Vec::new(),
        }
    }

    fn id(&mut self) -> u32 {
        self.next_id += 1;
        self.next_id
    }

    fn frame(
        &mut self,
        p: &CustomBlurProgram,
        o: &BlurOptions,
        sizes: Vec<Extent>,
    ) -> (Vec<GpuOp>, BlurOutput) {
        let f = self.settle(p, o, sizes);
        self.draw(&f, p, o)
    }

    /// A frame up to the point where its encoded field is settled.
    fn settle(
        &mut self,
        p: &CustomBlurProgram,
        o: &BlurOptions,
        sizes: Vec<Extent>,
    ) -> CustomFrame {
        self.requests.clear();
        self.compiled.clear();
        let source = Texture { id: SOURCE, size: self.source };
        let mut f = self.blur.begin_custom(42, source, p, o, sizes).unwrap();
        while let Some(request) = self.blur.next_output_texture(&f) {
            self.requests.push(request);
            let id = self.id();
            self.blur.add_output_texture(&f, id);
        }
        let count = o.subregion_rects.rects.len();
        let (x, y) = self.origin;
        let edges = Edges { x1: x, y1: y, x2: x + 40, y2: y + 20 };
        let span = RegionSpan { x, y, w: 40, h: 20 };
        let px = quad(x as f32, y as f32, x as f32 + 40.0, y as f32 + 20.0);
        self.blur.begin_mask(&mut f, p, o, vec![px; count], vec![edges; count], span);
        while let Some(request) = self.blur.next_mask_texture(&f, o) {
            self.requests.push(request);
            let id = self.id();
            self.blur.add_mask_texture(&mut f, o, id);
        }
        let local = vec![quad(1.0, 1.0, 41.0, 21.0); count];
        self.blur.settle_field(&mut f, local, self.close);
        f
    }

    fn draw(
        &mut self,
        f: &CustomFrame,
        p: &CustomBlurProgram,
        o: &BlurOptions,
    ) -> (Vec<GpuOp>, BlurOutput) {
        let source = f.source;
        let passes = max_kawase_passes(p, o);
        if passes > 0 {
            self.blur.begin_chain(source, true);
            while let Some(size) = self.blur.next_chain_texture(source, passes) {
                self.requests.push(TextureRequest { format: Format::Rgba8, size });
                let id = self.id();
                self.blur.add_chain_texture(source, passes, id);
            }
            self.blur.finish_chain(passes);
        }
        let mut failed = Programs {
            window_mask: false,
            output_mask: false,
            binary: false,
            jfa: false,
        };
        while let Some(program) = self.blur.next_program(f, p, o, failed) {
            self.compiled.push(program);
            self.blur.add_program(program, self.compiles, &mut failed);
        }
        assert!(self.blur.is_ready(f, p, o));
        self.blur.render_custom(f, p, o, bits(2.0))
    }
}

fn passes(ops: &[GpuOp]) -> Vec<Pass> {
    ops.iter()
        .filter_map(|op| match op {
            GpuOp::Draw(d) => Some(d.pass),
            _ => None,
        })
        .collect()
}

fn writes(op: &GpuOp, texture: u32) -> bool {
    match op {
        GpuOp::Draw(d) => d.target == texture,
        GpuOp::Clear { target, .. } | GpuOp::Blit { target, .. } => *target == texture,
        GpuOp::Upload { texture: t, .. } => *t == texture,
        GpuOp::Sample { .. } => false,
    }
}

#[test]
fn a_frame_needs_its_renderer_and_a_render_pass() {
    let mut blur = Stage::new().blur;
    let source = Texture { id: SOURCE, size: size(4, 4) };
    let p = program(1, vec![], vec![custom_step()]);
    let none = program(1, vec![], vec![]);
    let o = options(1, 1);
    assert_eq!(
        blur.begin_custom(41, source, &p, &o, vec![size(2, 2)]).unwrap_err(),
        RenderError::WrongRenderer
    );
    assert_eq!(
        blur.begin_custom(42, source, &none, &o, vec![]).unwrap_err(),
        RenderError::NoRenderPasses
    );
    assert_eq!(
        blur.begin_custom(41, source, &none, &o, vec![]).unwrap_err(),
        RenderError::WrongRenderer
    );
}

#[test]
fn binary_mask_without_mask_passes_clips_the_output() {
    let mut stage = Stage::new();
    let p = program(1, vec![], vec![custom_step()]);
    let (ops, output) = stage.frame(&p, &options(1, 1), vec![size(50, 25)]);
    assert_eq!(stage.compiled, vec![BuiltinProgram::Binary, BuiltinProgram::OutputMask]);
    assert!(output.subregion_clipped);
    assert_eq!(output.texture, stage.blur.masked_output.unwrap());
    assert_eq!(output.texture.size, size(50, 25));
    assert_eq!(stage.blur.mask_in_b, Some(false));
    let drawn = passes(&ops);
    assert!(matches!(drawn[0], Pass::BinaryMask { instances: 1, .. }));
    assert_eq!(
        drawn[1],
        Pass::CustomRender {
            index: 0,
            pass_count: 1,
            output: size(50, 25),
            input: size(100, 50),
            geo_size: Pair { x: bits(100.0), y: bits(50.0) },
            corner_radius: quad(4.0, 4.0, 4.0, 4.0),
            window_screen_rect: quad(0.0, 0.0, 0.0, 0.0),
        }
    );
    assert_eq!(drawn[2], Pass::OutputMask);
    assert!(matches!(ops[0], GpuOp::Upload { texels: 1, .. }));
    let rgba8 = |w, h| TextureRequest { format: Format::Rgba8, size: size(w, h) };
    let mask = TextureRequest { format: Format::Rgba16F, size: size(100, 50) };
    let rects = TextureRequest { format: Format::Rgba32F, size: size(16, 1) };
    assert_eq!(stage.requests, vec![rgba8(50, 25), rgba8(50, 25), mask, mask, rects]);
}

#[test]
fn without_subregions_nothing_is_clipped() {
    let mut stage = Stage::new();
    let p = program(1, vec![], vec![custom_step()]);
    let (ops, output) = stage.frame(&p, &options(1, 0), vec![size(50, 25)]);
    assert!(!output.subregion_clipped);
    assert!(stage.compiled.is_empty());
    assert_eq!(output.texture, stage.blur.custom_textures[0]);
    // The mask is cleared all the same.
    let a = stage.blur.mask_a.unwrap().id;
    assert_eq!(ops[0], GpuOp::Clear { target: a, region: None });
    assert_eq!(passes(&ops).len(), 1);
}

#[test]
fn failed_programs_leave_the_output_unclipped() {
    let mut stage = Stage::new();
    stage.compiles = false;
    let p = program(1, vec![MaskPassStep::RegionVectors], vec![custom_step()]);
    let (ops, output) = stage.frame(&p, &options(1, 1), vec![size(50, 25)]);
    assert_eq!(stage.compiled, vec![BuiltinProgram::Jfa]);
    assert!(!output.subregion_clipped);
    assert_eq!(passes(&ops).len(), 1);
    // They are tried again in the next frame that draws the mask.
    stage.compiles = true;
    stage.frame(&p, &options(2, 1), vec![size(50, 25)]);
    assert_eq!(stage.compiled, vec![BuiltinProgram::Jfa, BuiltinProgram::OutputMask]);
}

#[test]
fn a_rendered_mask_is_reused() {
    let mut stage = Stage::new();
    let p = program(1, vec![MaskPassStep::WindowVectors, custom_mask()], vec![custom_step()]);
    let o = options(1, 1);
    let (first, _) = stage.frame(&p, &o, vec![size(50, 25)]);
    assert!(matches!(passes(&first)[0], Pass::WindowMask { .. }));
    assert!(matches!(passes(&first)[1], Pass::CustomMask { index: 1, subregions: 1, .. }));
    assert_eq!(stage.blur.mask_in_b, Some(false));

    let (second, _) = stage.frame(&p, &o, vec![size(50, 25)]);
    assert!(stage.requests.is_empty());
    assert_eq!(second.len(), 1);
    let a = stage.blur.mask_a.unwrap().id;
    let b = stage.blur.mask_b.unwrap().id;
    assert!(second.iter().all(|op| !writes(op, a) && !writes(op, b)));
    match second[0] {
        GpuOp::Draw(d) => assert_eq!(d.unit1.unwrap().texture, a),
        _ => panic!("not a draw"),
    }

    // Another list of subregions, another geometry and another pipeline are not
    // what the mask was rendered for.
    assert!(stage.frame(&p, &options(2, 1), vec![size(50, 25)]).0.len() > 1);
    assert_eq!(stage.frame(&p, &options(2, 1), vec![size(50, 25)]).0.len(), 1);
    let o = options(2, 1).with_geometry(
        Pair { x: bits(101.0), y: bits(50.0) },
        quad(4.0, 4.0, 4.0, 4.0),
    );
    assert!(stage.frame(&p, &o, vec![size(50, 25)]).0.len() > 1);
    let other = program(2, vec![MaskPassStep::WindowVectors], vec![custom_step()]);
    assert!(stage.frame(&other, &o, vec![size(50, 25)]).0.len() > 1);
    assert_eq!(stage.blur.mask_in_b, Some(true));
}

#[test]
fn geometry_that_is_no_number_is_never_reused() {
    let mut stage = Stage::new();
    let p = program(1, vec![MaskPassStep::WindowVectors], vec![custom_step()]);
    let o = options(1, 0)
        .with_geometry(Pair { x: bits(f32::NAN), y: bits(1.0) }, quad(0.0, 0.0, 0.0, 0.0));
    let (first, _) = stage.frame(&p, &o, vec![size(50, 25)]);
    let (second, _) = stage.frame(&p, &o, vec![size(50, 25)]);
    assert_eq!(first, second);
    // Zeros of either sign are the same geometry.
    let geometry = |x: f32| {
        options(1, 0).with_geometry(Pair { x: bits(x), y: bits(1.0) }, quad(0.0, 0.0, 0.0, 0.0))
    };
    stage.frame(&p, &geometry(0.0), vec![size(50, 25)]);
    assert_eq!(stage.frame(&p, &geometry(-0.0), vec![size(50, 25)]).0.len(), 1);
}

#[test]
fn a_new_size_brings_new_textures_and_a_new_mask() {
    let mut stage = Stage::new();
    let p = program(1, vec![MaskPassStep::WindowVectors], vec![custom_step()]);
    let o = options(1, 1);
    stage.frame(&p, &o, vec![size(50, 25)]);
    stage.source = size(80, 40);
    let (ops, output) = stage.frame(&p, &o, vec![size(40, 20)]);
    assert_eq!(output.texture.size, size(40, 20));
    assert_eq!(stage.blur.mask_a.unwrap().size, size(80, 40));
    assert_eq!(stage.blur.mask_b.unwrap().size, size(80, 40));
    assert!(ops.len() > 1);
    assert!(matches!(ops[0], GpuOp::Upload { .. }));
    // The texture of the subregions is large enough already.
    assert_eq!(stage.requests.len(), 3);
}

#[test]
fn room_for_subregions_grows_in_powers_of_two() {
    let mut stage = Stage::new();
    let p = program(1, vec![], vec![custom_step()]);
    let mut rooms = Vec::new();
    for (id, count) in [(1, 3), (2, 16), (3, 17), (4, 2), (5, 33)] {
        stage.frame(&p, &options(id, count), vec![size(50, 25)]);
        rooms.push(stage.blur.rects_capacity);
    }
    assert_eq!(rooms, vec![16, 16, 32, 32, 64]);
}

#[test]
fn region_mask_is_allocated_encoded_and_moved() {
    let mut stage = Stage::new();
    let p = program(1, vec![MaskPassStep::RegionVectors], vec![custom_step()]);
    let (ops, output) = stage.frame(&p, &options(1, 1), vec![size(50, 25)]);
    assert!(output.subregion_clipped);
    assert_eq!(stage.compiled, vec![BuiltinProgram::Jfa, BuiltinProgram::OutputMask]);
    let t = stage.blur.jfa_textures.as_ref().unwrap();
    assert_eq!(t.size, size(42, 22));
    // Levels of 42 x 22, 21 x 11, 10 x 5 and 5 x 2.
    assert_eq!(t.pyramid.len(), 4);
    let field: Vec<Format> = stage.requests[5..].iter().map(|r| r.format).collect();
    assert_eq!(field.len(), 3 * 4 + 4);
    assert_eq!(field[..3], [Format::R32F, Format::R32F, Format::Rg16F]);
    assert_eq!(
        field[12..],
        [Format::R16F, Format::Rgba16F, Format::Rgba16F, Format::Rgba16F]
    );
    assert_eq!(stage.requests[5 + 3].size, size(21, 11));
    assert_eq!(stage.requests[5 + 12].size, size(42, 22));
    let ids: Vec<u32> = t.pyramid.iter().flat_map(|l| [l.u_a, l.u_b, l.rhs]).collect();
    assert_eq!(ids, (ids[0]..ids[0] + 12).collect::<Vec<u32>>());
    assert_eq!(
        (t.bin, t.jfa_a, t.jfa_b, t.encoded),
        (ids[0] + 12, ids[0] + 13, ids[0] + 14, ids[0] + 15)
    );
    assert!(passes(&ops).iter().any(|p| matches!(p, Pass::Encode { .. })));
    let b = stage.blur.mask_b.unwrap().id;
    assert_eq!(stage.blur.field.owner, Some(b));

    // The textures were new, so that the next frame encodes once more.
    stage.origin = (11, 10);
    let (ops, _) = stage.frame(&p, &options(2, 1), vec![size(50, 25)]);
    assert!(passes(&ops).iter().any(|p| matches!(p, Pass::Encode { .. })));

    // From then on a move clears the former place and puts the field anew.
    stage.origin = (30, 12);
    let (ops, _) = stage.frame(&p, &options(3, 1), vec![size(50, 25)]);
    assert!(!passes(&ops).iter().any(|p| matches!(p, Pass::Encode { .. })));
    assert_eq!(
        ops[1],
        GpuOp::Clear { target: b, region: Some(Rect { x: 10, y: 9, w: 42, h: 22 }) }
    );
    assert!(matches!(ops[2], GpuOp::Blit { target, .. } if target == b));

    // Rectangles elsewhere in the box are another field.
    stage.close = false;
    let (ops, _) = stage.frame(&p, &options(4, 1), vec![size(50, 25)]);
    assert!(passes(&ops).iter().any(|p| matches!(p, Pass::Encode { .. })));
}

fn encodes(ops: &[GpuOp]) -> bool {
    passes(ops).iter().any(|p| matches!(p, Pass::Encode { .. }))
}

#[test]
fn a_field_without_its_programs_is_not_reused() {
    let mut stage = Stage::new();
    stage.compiles = false;
    let p = program(1, vec![MaskPassStep::RegionVectors], vec![custom_step()]);
    for id in 1..4 {
        let (ops, _) = stage.frame(&p, &options(id, 1), vec![size(50, 25)]);
        assert!(!stage.blur.field.built);
        assert!(!ops.iter().any(|op| matches!(op, GpuOp::Blit { .. })));
        // They are tried in each frame.
        assert_eq!(stage.compiled, vec![BuiltinProgram::Jfa]);
    }
    stage.compiles = true;
    let (ops, _) = stage.frame(&p, &options(4, 1), vec![size(50, 25)]);
    assert!(encodes(&ops));
    assert!(stage.blur.field.built);
    let (ops, _) = stage.frame(&p, &options(5, 1), vec![size(50, 25)]);
    assert!(!encodes(&ops));
    assert!(ops.iter().any(|op| matches!(op, GpuOp::Blit { .. })));
}

#[test]
fn a_field_that_was_only_asked_for_is_not_reused() {
    let mut stage = Stage::new();
    let p = program(1, vec![MaskPassStep::RegionVectors], vec![custom_step()]);
    stage.frame(&p, &options(1, 1), vec![size(50, 25)]);
    stage.frame(&p, &options(2, 1), vec![size(50, 25)]);
    // Another field is asked for, and the frame is given up before it is drawn.
    stage.close = false;
    let f = stage.settle(&p, &options(3, 1), vec![size(50, 25)]);
    assert!(!f.field_hit);
    stage.close = true;
    let (ops, _) = stage.frame(&p, &options(4, 1), vec![size(50, 25)]);
    assert!(encodes(&ops));
}

#[test]
fn the_field_is_cleared_from_where_it_was_placed() {
    let mut stage = Stage::new();
    let p = program(1, vec![MaskPassStep::RegionVectors], vec![custom_step()]);
    stage.frame(&p, &options(1, 1), vec![size(50, 25)]);
    stage.frame(&p, &options(2, 1), vec![size(50, 25)]);
    let b = stage.blur.mask_b.unwrap().id;
    // A move that is not drawn does not move the field.
    stage.origin = (30, 12);
    let f = stage.settle(&p, &options(3, 1), vec![size(50, 25)]);
    assert!(f.field_hit);
    stage.origin = (20, 14);
    let (ops, _) = stage.frame(&p, &options(4, 1), vec![size(50, 25)]);
    assert!(ops.contains(&GpuOp::Clear {
        target: b,
        region: Some(Rect { x: 9, y: 9, w: 42, h: 22 }),
    }));
}

#[test]
fn the_field_of_a_reused_mask_is_reused_after_a_move() {
    let mut stage = Stage::new();
    let p = program(1, vec![MaskPassStep::RegionVectors], vec![custom_step()]);
    let (ops, _) = stage.frame(&p, &options(1, 1), vec![size(50, 25)]);
    assert!(encodes(&ops));
    // The same mask again: nothing is drawn, and the new textures are new no longer.
    stage.frame(&p, &options(1, 1), vec![size(50, 25)]);
    assert!(stage.blur.field.built);
    stage.origin = (30, 12);
    let (ops, _) = stage.frame(&p, &options(2, 1), vec![size(50, 25)]);
    assert!(!encodes(&ops));
    let t = stage.blur.jfa_textures.as_ref().unwrap();
    assert!(ops.iter().all(|op| !writes(op, t.encoded)));
}

#[test]
fn a_forgotten_mask_is_drawn_anew() {
    let mut stage = Stage::new();
    let p = program(1, vec![MaskPassStep::RegionVectors], vec![custom_step()]);
    let o = options(1, 1);
    stage.frame(&p, &o, vec![size(50, 25)]);
    stage.frame(&p, &o, vec![size(50, 25)]);
    stage.blur.forget_mask();
    assert_eq!((stage.blur.mask_key, stage.blur.mask_in_b), (None, None));
    assert!(stage.blur.field.rects_local.is_empty());
    assert_eq!((stage.blur.field.bbox_size, stage.blur.field.owner), (None, None));
    let (ops, _) = stage.frame(&p, &o, vec![size(50, 25)]);
    let b = stage.blur.mask_b.unwrap().id;
    assert!(matches!(ops[0], GpuOp::Upload { .. }));
    assert_eq!(ops[1], GpuOp::Clear { target: b, region: None });
    assert!(encodes(&ops));
}

#[test]
fn a_pass_that_draws_over_the_field_gives_it_up() {
    let mut stage = Stage::new();
    let region = program(1, vec![MaskPassStep::RegionVectors], vec![custom_step()]);
    stage.frame(&region, &options(1, 1), vec![size(50, 25)]);
    stage.frame(&region, &options(2, 1), vec![size(50, 25)]);
    let b = stage.blur.mask_b.unwrap().id;
    assert_eq!(stage.blur.field.owner, Some(b));
    let window = program(2, vec![MaskPassStep::WindowVectors], vec![custom_step()]);
    stage.frame(&window, &options(2, 1), vec![size(50, 25)]);
    assert_eq!(stage.blur.field.owner, None);
    // The region mask is then cleared as a whole.
    let (ops, _) = stage.frame(&region, &options(3, 1), vec![size(50, 25)]);
    assert!(ops.contains(&GpuOp::Clear { target: b, region: None }));
}

#[test]
fn region_outside_the_source_draws_no_region_mask() {
    let mut stage = Stage::new();
    stage.origin = (200, 10);
    let p = program(1, vec![MaskPassStep::RegionVectors], vec![custom_step()]);
    let (ops, _) = stage.frame(&p, &options(1, 1), vec![size(50, 25)]);
    assert!(stage.blur.jfa_textures.is_none());
    assert_eq!(passes(&ops).len(), 1);
    assert_eq!(stage.blur.mask_in_b, Some(true));
    let b = stage.blur.mask_b.unwrap().id;
    assert!(ops.contains(&GpuOp::Clear { target: b, region: None }));
}

#[test]
fn region_pass_without_subregions_clears_the_mask() {
    let mut stage = Stage::new();
    let p = program(1, vec![MaskPassStep::RegionVectors], vec![custom_step()]);
    stage.frame(&p, &options(1, 1), vec![size(50, 25)]);
    let b = stage.blur.mask_b.unwrap().id;
    assert_eq!(stage.blur.field.owner, Some(b));
    let (ops, output) = stage.frame(&p, &options(2, 0), vec![size(50, 25)]);
    assert_eq!(ops[0], GpuOp::Clear { target: b, region: None });
    assert_eq!(ops.len(), 2);
    match ops[1] {
        GpuOp::Draw(d) => assert_eq!(d.unit1.unwrap().texture, b),
        _ => panic!("not a draw"),
    }
    assert!(!output.subregion_clipped);
    assert_eq!(stage.blur.field.owner, None);
}

#[test]
fn kawase_steps_share_the_longest_chain() {
    let mut stage = Stage::new();
    let kawase = |passes, offset: Option<f32>| RenderPassStep::DualKawaseBlur {
        passes,
        offset: offset.map(bits),
    };
    let p = program(
        1,
        vec![MaskPassStep::WindowVectors],
        vec![kawase(Some(3), Some(1.5)), custom_step(), kawase(None, None)],
    );
    let o = options(1, 0);
    assert_eq!(max_kawase_passes(&p, &o), 3);
    let sizes = vec![size(100, 50), size(50, 25), size(50, 25)];
    let (ops, output) = stage.frame(&p, &o, sizes);
    assert_eq!(stage.blur.textures.len(), 4);
    assert_eq!(output.texture, stage.blur.custom_textures[2]);
    let drawn = passes(&ops);
    // The window mask; three down and three up; the custom pass; two down and two up.
    assert_eq!(drawn.len(), 1 + 6 + 1 + 4);
    assert!(matches!(drawn[1], Pass::KawaseDown { offset, .. } if offset == bits(1.5)));
    assert!(matches!(drawn[8], Pass::KawaseDown { offset, .. } if offset == bits(2.0)));
    assert_eq!(max_kawase_passes(&program(1, vec![], vec![custom_step()]), &o), 0);
    let many = program(1, vec![], vec![kawase(Some(200), None)]);
    assert_eq!(max_kawase_passes(&many, &o), 31);
}

#[test]
fn a_frame_is_not_ready_before_its_textures() {
    let mut stage = Stage::new();
    let source = Texture { id: SOURCE, size: size(4, 4) };
    let p = program(1, vec![], vec![custom_step()]);
    let o = options(1, 0);
    let f = stage.blur.begin_custom(42, source, &p, &o, vec![size(2, 2)]).unwrap();
    assert!(!stage.blur.is_ready(&f, &p, &o));
}

fn reads(op: &GpuOp, texture: u32) -> bool {
    match op {
        GpuOp::Draw(d) => {
            [d.unit0, d.unit1, d.unit2].iter().flatten().any(|b| b.texture == texture)
        }
        GpuOp::Blit { source, .. } => *source == texture,
        _ => false,
    }
}

#[test]
fn no_operation_reads_what_it_writes() {
    let mut stage = Stage::new();
    let kawase = RenderPassStep::DualKawaseBlur { passes: Some(3), offset: None };
    let p = program(
        1,
        vec![custom_mask(), MaskPassStep::RegionVectors, MaskPassStep::WindowVectors, custom_mask()],
        vec![kawase, custom_step()],
    );
    let (ops, _) = stage.frame(&p, &options(1, 2), vec![size(100, 50), size(50, 25)]);
    assert!(ops.len() > 50);
    for op in &ops {
        for texture in 0..=stage.next_id {
            assert!(!(writes(op, texture) && reads(op, texture)), "{op:?}");
        }
    }
}

#[test]
fn subregions_are_uploaded_once_per_change() {
    let mut stage = Stage::new();
    let p = program(1, vec![custom_mask()], vec![custom_step()]);
    let uploads = |ops: &[GpuOp]| {
        ops.iter().filter(|op| matches!(op, GpuOp::Upload { .. })).count()
    };
    let (ops, _) = stage.frame(&p, &options(1, 2), vec![size(50, 25)]);
    assert_eq!(uploads(&ops), 1);
    // Another geometry draws the mask anew, with the subregions that are there.
    let o = options(1, 2).with_geometry(
        Pair { x: bits(7.0), y: bits(7.0) },
        quad(0.0, 0.0, 0.0, 0.0),
    );
    let (ops, _) = stage.frame(&p, &o, vec![size(50, 25)]);
    assert!(ops.len() > 1);
    assert_eq!(uploads(&ops), 0);
    let (ops, _) = stage.frame(&p, &options(2, 2), vec![size(50, 25)]);
    assert_eq!(uploads(&ops), 1);
}
