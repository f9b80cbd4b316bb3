use niri_effects::blur::{Blur, RenderError, RenderPath};
use niri_effects::blur_options::{BlurConfig, BlurOptions, SubregionRects};
use niri_effects::blur_program::BlurProgram;
use niri_effects::custom_blur::{MaskPassStep, ShaderPipeline};
use niri_effects::float_bits::{F32Bits, F64Bits};
use niri_effects::gpu::{Extent, GpuOp, Pair, Pass, Quad, Texture};

fn bits(x: f32) -> F32Bits {
    F32Bits { bits: x.to_bits() }
}

fn quad(x: f32, y: f32, z: f32, w: f32) -> Quad {
    Quad { x: bits(x), y: bits(y), z: bits(z), w: bits(w) }
}

fn options(passes: u8, pipeline: bool) -> BlurOptions {
    let shader_pipeline = pipeline.then_some(ShaderPipeline {
        mask_passes: Vec::new(),
        render_passes: Vec::new(),
    });
    let config = BlurConfig {
        passes,
        offset: F64Bits { bits: 2.0f64.to_bits() },
        shader_pipeline,
    };
    BlurOptions::from(config, 5)
}

fn texture(id: u32, w: i32, h: i32) -> Texture {
    Texture { id, size: Extent { w, h } }
}

fn blur() -> Blur {
    Blur::new(Some(BlurProgram { down: 1, up: 2 }), 42).unwrap()
}

fn complete(blur: &mut Blur, source: Texture, passes: usize, first: u32) {
    let mut id = first;
    while blur.next_chain_texture(source, passes).is_some() {
        blur.add_chain_texture(source, passes, id);
        id += 1;
    }
    blur.finish_chain(passes);
}

#[test]
fn gpu_output_clip_requires_an_exact_builtin_region_mask() {
    assert!(Blur::can_gpu_clip_custom_output(&[], true));
    assert!(Blur::can_gpu_clip_custom_output(&[MaskPassStep::RegionVectors], true));
    assert!(!Blur::can_gpu_clip_custom_output(&[MaskPassStep::WindowVectors], true));
    assert!(!Blur::can_gpu_clip_custom_output(
        &[MaskPassStep::RegionVectors, MaskPassStep::WindowVectors],
        true
    ));
    assert!(!Blur::can_gpu_clip_custom_output(
        &[MaskPassStep::Custom {
            name: "mask".to_owned(),
            source: String::new(),
            scale: bits(1.0),
        }],
        true
    ));
    assert!(!Blur::can_gpu_clip_custom_output(&[MaskPassStep::RegionVectors], false));
}

#[test]
fn options_of_a_configuration_have_no_geometry() {
    let options = options(3, true);
    assert_eq!(options.passes, 3);
    assert_eq!(f64::from_bits(options.offset.bits), 2.0);
    assert_eq!(options.geo_size, Pair { x: bits(0.0), y: bits(0.0) });
    assert_eq!(options.corner_radius, quad(0.0, 0.0, 0.0, 0.0));
    assert_eq!(options.window_screen_rect, quad(0.0, 0.0, 0.0, 0.0));
    assert_eq!(options.subregion_rects.id, 5);
    assert!(options.subregion_rects.rects.is_empty());
    assert!(options.shader_pipeline.is_some());
}

#[test]
fn builders_change_their_fields_alone() {
    let size = Pair { x: bits(10.0), y: bits(20.0) };
    let radius = quad(1.0, 2.0, 3.0, 4.0);
    let screen = quad(0.1, 0.2, 0.3, 0.4);
    let rects = SubregionRects { id: 8, rects: vec![quad(0.0, 0.0, 1.0, 1.0)] };
    let options = options(3, false)
        .with_geometry(size, radius)
        .with_subregion_rects(rects)
        .with_window_screen_rect(screen);
    assert_eq!(options.geo_size, size);
    assert_eq!(options.corner_radius, radius);
    assert_eq!(options.subregion_rects.id, 8);
    assert_eq!(options.subregion_rects.rects.len(), 1);
    assert_eq!(options.window_screen_rect, screen);
    assert_eq!(options.passes, 3);
    assert!(options.shader_pipeline.is_none());
}

#[test]
fn option_passes_are_clamped() {
    assert_eq!(options(0, false).clamped_passes(), 1);
    assert_eq!(options(7, false).clamped_passes(), 7);
    assert_eq!(options(99, false).clamped_passes(), 31);
}

#[test]
fn a_blur_needs_its_programs() {
    assert!(Blur::new(None, 42).is_none());
    let blur = blur();
    assert_eq!(blur.context_id(), 42);
    assert!(blur.textures.is_empty());
    assert!(blur.mask_key.is_none());
}

#[test]
fn the_pipeline_is_used_if_it_compiled() {
    assert_eq!(Blur::render_path(&options(1, true), true), RenderPath::Custom);
    assert_eq!(Blur::render_path(&options(1, true), false), RenderPath::Kawase);
    assert_eq!(Blur::render_path(&options(1, false), true), RenderPath::Kawase);
}

#[test]
fn preparing_for_a_pipeline_drops_the_chain() {
    let mut blur = blur();
    let source = texture(9, 16, 8);
    assert_eq!(blur.prepare_textures(source, &options(2, false), true), Some(2));
    complete(&mut blur, source, 2, 20);
    assert_eq!(
        blur.textures,
        vec![texture(20, 16, 8), texture(21, 8, 4), texture(22, 4, 2)]
    );
    assert_eq!(blur.prepare_textures(source, &options(2, true), true), None);
    assert!(blur.textures.is_empty());
}

#[test]
fn a_chain_is_reused_trimmed_and_extended() {
    let mut blur = blur();
    let source = texture(9, 16, 8);
    blur.prepare_textures(source, &options(3, false), true);
    complete(&mut blur, source, 3, 20);
    blur.prepare_textures(source, &options(1, false), true);
    complete(&mut blur, source, 1, 30);
    assert_eq!(blur.textures, vec![texture(20, 16, 8), texture(21, 8, 4)]);
    blur.prepare_textures(source, &options(2, false), true);
    complete(&mut blur, source, 2, 40);
    assert_eq!(
        blur.textures,
        vec![texture(20, 16, 8), texture(21, 8, 4), texture(40, 4, 2)]
    );
    blur.prepare_textures(source, &options(1, false), false);
    assert!(blur.textures.is_empty());
}

#[test]
fn plain_blur_goes_down_and_up() {
    let mut blur = blur();
    let source = texture(9, 16, 8);
    let options = options(2, false);
    assert!(blur.needs_chain(source, &options));
    blur.begin_chain(source, true);
    complete(&mut blur, source, 2, 20);
    assert!(!blur.needs_chain(source, &options));
    let (ops, output) = blur.render(42, source, &options, bits(2.0), true).unwrap();
    assert_eq!(output.texture, texture(20, 16, 8));
    assert!(!output.subregion_clipped);
    let steps: Vec<(bool, u32, u32, i32)> = ops
        .iter()
        .map(|op| match op {
            GpuOp::Draw(d) => {
                assert!(d.unit1.is_none());
                let down = match d.pass {
                    Pass::KawaseDown { offset, half_pixel } => {
                        assert_eq!((offset, half_pixel), (bits(2.0), d.viewport));
                        true
                    }
                    Pass::KawaseUp { offset, .. } => {
                        assert_eq!(offset, bits(2.0));
                        false
                    }
                    _ => panic!("not a Kawase pass"),
                };
                (down, d.unit0.unwrap().texture, d.target, d.viewport.w)
            }
            _ => panic!("not a draw"),
        })
        .collect();
    assert_eq!(
        steps,
        vec![(true, 9, 21, 8), (true, 21, 22, 4), (false, 22, 21, 8), (false, 21, 20, 16)]
    );
}

#[test]
fn plain_blur_checks_its_textures() {
    let mut blur = blur();
    let source = texture(9, 16, 8);
    let two = options(2, false);
    assert_eq!(
        blur.render(41, source, &two, bits(2.0), true).unwrap_err(),
        RenderError::WrongRenderer
    );
    assert_eq!(
        blur.render(42, source, &two, bits(2.0), true).unwrap_err(),
        RenderError::WrongTexturesLen { expected: 3, got: 0 }
    );
    blur.begin_chain(source, true);
    complete(&mut blur, source, 2, 20);
    let other = texture(9, 16, 9);
    assert!(blur.needs_chain(other, &two));
    assert_eq!(
        blur.render(42, other, &two, bits(2.0), true).unwrap_err(),
        RenderError::WrongOutputSize { expected: other.size, got: source.size }
    );
    assert_eq!(
        blur.render(42, source, &two, bits(2.0), false).unwrap_err(),
        RenderError::OutputShared
    );
    assert!(blur.render(42, source, &two, bits(2.0), true).is_ok());
}
