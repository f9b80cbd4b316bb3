use std::collections::hash_map::DefaultHasher;
use std::hash::{Hash, Hasher};

use niri_effects::blur_program::{next_shader, BlurProgram, CustomBlurProgram, KawaseShader, MissingProgram};
use niri_effects::custom_blur::{
    next_shader_file, resolve_pipeline, MaskPass, MaskPassKind, MaskPassStep, PassFault,
    PipelineConfig, RenderPass, RenderPassKind, RenderPassStep, ResolveError, ShaderPipeline,
};
use niri_effects::float_bits::F32Bits;

fn bits(x: f32) -> F32Bits {
    F32Bits { bits: x.to_bits() }
}

fn mask(kind: MaskPassKind, file: Option<&str>, scale: f32) -> MaskPass {
    MaskPass { kind, file: file.map(str::to_owned), scale: bits(scale) }
}

fn custom_render(file: Option<&str>, scale: f32) -> RenderPass {
    RenderPass {
        kind: RenderPassKind::Custom,
        file: file.map(str::to_owned),
        scale: bits(scale),
        passes: None,
        offset: None,
    }
}

fn kawase(passes: Option<u8>, offset: Option<f32>) -> RenderPass {
    RenderPass {
        kind: RenderPassKind::DualKawaseBlur,
        file: None,
        scale: bits(1.0),
        passes,
        offset: offset.map(bits),
    }
}

fn sample() -> ShaderPipeline {
    ShaderPipeline {
        mask_passes: vec![
            mask(MaskPassKind::RegionVectors, None, 0.0),
            mask(MaskPassKind::Custom, Some("mask.frag"), 1.0),
            mask(MaskPassKind::WindowVectors, None, 1.0),
        ],
        render_passes: vec![kawase(Some(3), Some(2.5)), custom_render(Some("glass.frag"), 0.5)],
    }
}

#[test]
fn shader_files_are_asked_for_in_order() {
    let pipeline = sample();
    assert_eq!(next_shader_file(&pipeline, 0).unwrap(), "mask.frag");
    assert_eq!(next_shader_file(&pipeline, 1).unwrap(), "glass.frag");
    assert!(next_shader_file(&pipeline, 2).is_none());
}

#[test]
fn pipeline_resolves_with_all_of_its_shaders() {
    let shaders = vec!["void mask() {}".to_owned(), "void glass() {}".to_owned()];
    let config = resolve_pipeline(&sample(), &shaders).unwrap();
    assert_eq!(config.mask_passes.len(), 3);
    assert!(matches!(config.mask_passes[0], MaskPassStep::RegionVectors));
    match &config.mask_passes[1] {
        MaskPassStep::Custom { name, source, scale } => {
            assert_eq!(name, "mask.frag");
            assert_eq!(source, "void mask() {}");
            assert_eq!(*scale, bits(1.0));
        }
        _ => panic!("not a custom pass"),
    }
    assert!(matches!(config.mask_passes[2], MaskPassStep::WindowVectors));
    match &config.render_passes[0] {
        RenderPassStep::DualKawaseBlur { passes, offset } => {
            assert_eq!(*passes, Some(3));
            assert_eq!(*offset, Some(bits(2.5)));
        }
        _ => panic!("not a Kawase pass"),
    }
    match &config.render_passes[1] {
        RenderPassStep::Custom { name, source, scale } => {
            assert_eq!(name, "glass.frag");
            assert_eq!(source, "void glass() {}");
            assert_eq!(*scale, bits(0.5));
        }
        _ => panic!("not a custom pass"),
    }
}

fn error_of(pipeline: &ShaderPipeline, shaders: &[&str]) -> ResolveError {
    let shaders: Vec<String> = shaders.iter().map(|s| s.to_string()).collect();
    resolve_pipeline(pipeline, &shaders).unwrap_err()
}

#[test]
fn unread_shaders_are_errors() {
    assert_eq!(
        error_of(&sample(), &[]),
        ResolveError::MaskPass { index: 1, fault: PassFault::Unread }
    );
    assert_eq!(
        error_of(&sample(), &["m"]),
        ResolveError::RenderPass { index: 1, fault: PassFault::Unread }
    );
}

#[test]
fn custom_passes_need_a_file_and_a_positive_scale() {
    let mut pipeline = sample();
    pipeline.mask_passes[1].file = None;
    assert_eq!(
        error_of(&pipeline, &["m", "g"]),
        ResolveError::MaskPass { index: 1, fault: PassFault::MissingFile }
    );
    assert!(next_shader_file(&pipeline, 0).is_none());

    for scale in [0.0, -1.0, f32::NAN] {
        let mut pipeline = sample();
        pipeline.mask_passes[1].scale = bits(scale);
        assert_eq!(
            error_of(&pipeline, &["m", "g"]),
            ResolveError::MaskPass { index: 1, fault: PassFault::ScaleNotPositive }
        );
    }

    let mut pipeline = sample();
    pipeline.render_passes[1].file = None;
    assert_eq!(
        error_of(&pipeline, &["m"]),
        ResolveError::RenderPass { index: 1, fault: PassFault::MissingFile }
    );

    let mut pipeline = sample();
    pipeline.render_passes[1].scale = bits(-0.5);
    assert_eq!(
        error_of(&pipeline, &["m"]),
        ResolveError::RenderPass { index: 1, fault: PassFault::ScaleNotPositive }
    );
}

#[test]
fn a_missing_file_is_found_before_a_bad_scale() {
    let mut pipeline = sample();
    pipeline.mask_passes[1].file = None;
    pipeline.mask_passes[1].scale = bits(0.0);
    assert_eq!(
        error_of(&pipeline, &[]),
        ResolveError::MaskPass { index: 1, fault: PassFault::MissingFile }
    );
}

#[test]
fn pipeline_needs_a_render_pass() {
    let mut pipeline = sample();
    pipeline.render_passes.clear();
    assert_eq!(error_of(&pipeline, &["m"]), ResolveError::NoRenderPasses);
    // The mask passes are looked at first.
    assert_eq!(
        error_of(&pipeline, &[]),
        ResolveError::MaskPass { index: 1, fault: PassFault::Unread }
    );
}

fn config(name: &str) -> PipelineConfig {
    PipelineConfig {
        mask_passes: vec![
            MaskPassStep::WindowVectors,
            MaskPassStep::RegionVectors,
            MaskPassStep::Custom {
                name: name.to_owned(),
                source: "mask \u{e9}".to_owned(),
                scale: bits(0.75),
            },
        ],
        render_passes: vec![
            RenderPassStep::DualKawaseBlur { passes: Some(4), offset: None },
            RenderPassStep::DualKawaseBlur { passes: None, offset: Some(bits(1.25)) },
            RenderPassStep::Custom {
                name: name.to_owned(),
                source: "glass".to_owned(),
                scale: bits(2.0),
            },
        ],
    }
}

#[test]
fn cache_key_hashes_every_pass() {
    let mut hasher = DefaultHasher::new();
    0u8.hash(&mut hasher);
    1u8.hash(&mut hasher);
    2u8.hash(&mut hasher);
    "mask \u{e9}".hash(&mut hasher);
    0.75f32.to_bits().hash(&mut hasher);
    0u8.hash(&mut hasher);
    Some(4u8).hash(&mut hasher);
    None::<u32>.hash(&mut hasher);
    0u8.hash(&mut hasher);
    None::<u8>.hash(&mut hasher);
    Some(1.25f32.to_bits()).hash(&mut hasher);
    1u8.hash(&mut hasher);
    "glass".hash(&mut hasher);
    2.0f32.to_bits().hash(&mut hasher);
    assert_eq!(config("a.frag").cache_key(), hasher.finish());
}

#[test]
fn cache_key_ignores_names_but_not_sources() {
    assert_eq!(config("a.frag").cache_key(), config("b.frag").cache_key());
    let mut other = config("a.frag");
    other.render_passes.pop();
    assert_ne!(config("a.frag").cache_key(), other.cache_key());
    let mut other = config("a.frag");
    other.mask_passes[2] = MaskPassStep::Custom {
        name: "a.frag".to_owned(),
        source: "mask e".to_owned(),
        scale: bits(0.75),
    };
    assert_ne!(config("a.frag").cache_key(), other.cache_key());
}

#[test]
fn cloned_steps_are_the_same() {
    let config = config("a.frag");
    let copy = PipelineConfig {
        mask_passes: config.mask_passes.clone(),
        render_passes: config.render_passes.clone(),
    };
    assert_eq!(format!("{config:?}"), format!("{copy:?}"));
}

#[test]
fn programs_are_compiled_in_the_order_of_the_passes() {
    let config = config("a.frag");
    assert_eq!(next_shader(&config, 0).unwrap(), "mask \u{e9}");
    assert_eq!(next_shader(&config, 1).unwrap(), "glass");
    assert!(next_shader(&config, 2).is_none());

    assert_eq!(
        CustomBlurProgram::compile(9, &config, &vec![]).unwrap_err(),
        MissingProgram::MaskPass { index: 2 }
    );
    assert_eq!(
        CustomBlurProgram::compile(9, &config, &vec![11]).unwrap_err(),
        MissingProgram::RenderPass { index: 2 }
    );
    let program = CustomBlurProgram::compile(9, &config, &vec![11, 12]).unwrap();
    assert_eq!(program.id, 9);
    assert_eq!(program.mask_programs, vec![None, None, Some(11)]);
    assert_eq!(program.render_programs, vec![None, None, Some(12)]);
    assert_eq!(program.destroy(), vec![11, 12]);
}

#[test]
fn kawase_programs_come_in_a_pair() {
    assert_eq!(BlurProgram::compile(None, Some(2)), Err(KawaseShader::Down));
    assert_eq!(BlurProgram::compile(None, None), Err(KawaseShader::Down));
    assert_eq!(BlurProgram::compile(Some(1), None), Err(KawaseShader::Up));
    let program = BlurProgram::compile(Some(1), Some(2)).unwrap();
    assert_eq!(program.destroy(), vec![1, 2]);
}
