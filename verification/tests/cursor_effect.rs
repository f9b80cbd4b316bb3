use std::collections::hash_map::DefaultHasher;
use std::hash::{Hash, Hasher};

use niri_effects::cursor_effect::{
    cursor_effect_geometry, cursor_frame_identity, CoverageMask, CursorEffect,
    CursorEffectGeometry, LogicalRect,
};
use niri_effects::custom_blur::{RenderPass, RenderPassKind, ShaderPipeline};
use niri_effects::float_bits::{F32Bits, F64Bits};
use niri_effects::gpu::{Pair, Rect};
use niri_effects::icon::CursorIcon;

fn bits(x: f64) -> F64Bits {
    F64Bits { bits: x.to_bits() }
}

fn number(x: F64Bits) -> f64 {
    f64::from_bits(x.bits)
}

/// The region around a silhouette, with the padding, and both in physical pixels.
fn geometry(
    pointer: (f64, f64),
    hotspot: (f64, f64),
    frame: (f64, f64),
    padding: f64,
    scale: f64,
) -> CursorEffectGeometry {
    let padding = padding.max(1.0);
    let pixels = padding * scale;
    let padding = if pixels < 1.5 && pixels != 1.0 { 2.0 / scale } else { padding };
    let (x, y) = (pointer.0 - hotspot.0, pointer.1 - hotspot.1);
    let region = (
        x - padding,
        y - padding,
        (frame.0 + 2.0 * padding).max(1.0),
        (frame.1 + 2.0 * padding).max(1.0),
    );
    let physical = |x: f64, y: f64, w: f64, h: f64| Rect {
        x: (x * scale).round() as i32,
        y: (y * scale).round() as i32,
        w: (w * scale).round() as i32,
        h: (h * scale).round() as i32,
    };
    cursor_effect_geometry(
        LogicalRect { x: bits(region.0), y: bits(region.1), w: bits(region.2), h: bits(region.3) },
        physical(region.0, region.1, region.2, region.3),
        physical(x, y, frame.0, frame.1),
    )
}

#[test]
fn padding_widens_the_region_and_insets_the_silhouette() {
    let geo = geometry((100.0, 100.0), (1.0, 1.0), (10.0, 20.0), 5.0, 1.0);
    assert_eq!((number(geo.geometry.x), number(geo.geometry.y)), (94.0, 94.0));
    assert_eq!((number(geo.geometry.w), number(geo.geometry.h)), (20.0, 30.0));
    // Mask pixels are counted from the bottom left, so a symmetric padding insets
    // the silhouette equally on every side.
    assert_eq!((geo.coverage_bbox.x, geo.coverage_bbox.y), (5, 5));
    assert_eq!((geo.coverage_bbox.w, geo.coverage_bbox.h), (10, 20));
}

#[test]
fn padding_scales_with_the_output() {
    let geo = geometry((100.0, 100.0), (1.0, 1.0), (10.0, 20.0), 5.0, 2.0);
    assert_eq!((geo.coverage_bbox.x, geo.coverage_bbox.y), (10, 10));
    assert_eq!((geo.coverage_bbox.w, geo.coverage_bbox.h), (20, 40));
}

#[test]
fn silhouette_keeps_a_pixel_of_margin_at_any_scale() {
    for scale in [0.4, 0.5, 1.0, 1.2, 1.25, 1.4, 1.5, 1.75, 2.0, 3.0] {
        for step in 0..50 {
            let pointer = (7.0 + f64::from(step) * 0.13, 3.0 + f64::from(step) * 0.29);
            let frame = (24.0 / scale, 24.0 / scale + f64::from(step) * 0.07);
            let geo = geometry(pointer, (1.0, 2.0), frame, 1.0, scale);
            let bbox = geo.coverage_bbox;
            let w = (number(geo.geometry.w) * scale).round() as i32;
            let h = (number(geo.geometry.h) * scale).round() as i32;
            assert!(bbox.x >= 1 && bbox.x + bbox.w < w, "{scale} {step}: {bbox:?} in {w}");
            assert!(bbox.y >= 1 && bbox.y + bbox.h < h, "{scale} {step}: {bbox:?} in {h}");
        }
    }
}

#[test]
fn silhouette_is_measured_from_the_bottom() {
    let region = Rect { x: 10, y: 20, w: 30, h: 40 };
    let silhouette = Rect { x: 12, y: 23, w: 5, h: 6 };
    let zero = bits(0.0);
    let geo = cursor_effect_geometry(
        LogicalRect { x: zero, y: zero, w: zero, h: zero },
        region,
        silhouette,
    );
    assert_eq!(geo.coverage_bbox, Rect { x: 2, y: 31, w: 5, h: 6 });
}

fn icon(name: &str) -> CursorIcon {
    CursorIcon::from_name(name).unwrap()
}

#[test]
fn frame_identity_tracks_the_frame_but_not_position() {
    let a = cursor_frame_identity(&icon("default"), 2, 0, 32, 32);
    assert_eq!(a, cursor_frame_identity(&icon("default"), 2, 0, 32, 32));
    assert_ne!(a, cursor_frame_identity(&icon("default"), 2, 1, 32, 32));
    assert_ne!(a, cursor_frame_identity(&icon("text"), 2, 0, 32, 32));
}

#[test]
fn frame_identity_is_the_hash_of_its_parts() {
    let mut hasher = DefaultHasher::new();
    "text".hash(&mut hasher);
    (-3i32).hash(&mut hasher);
    7usize.hash(&mut hasher);
    24u32.hash(&mut hasher);
    48u32.hash(&mut hasher);
    assert_eq!(cursor_frame_identity(&icon("text"), -3, 7, 24, 48), hasher.finish());
}

fn pipeline() -> ShaderPipeline {
    ShaderPipeline {
        mask_passes: Vec::new(),
        render_passes: vec![RenderPass {
            kind: RenderPassKind::DualKawaseBlur,
            file: None,
            scale: F32Bits { bits: 0 },
            passes: None,
            offset: None,
        }],
    }
}

#[test]
fn output_is_damaged_when_the_image_changes() {
    let mut effect = CursorEffect::new();
    assert_eq!(effect.last_identity, None);
    let geo = geometry((100.0, 100.0), (1.0, 1.0), (10.0, 20.0), 5.0, 1.0);
    let size = Pair {
        x: F32Bits { bits: 20.0f32.to_bits() },
        y: F32Bits { bits: 30.0f32.to_bits() },
    };
    let mut damages = Vec::new();
    for identity in [7, 7, 8, 7] {
        let coverage = CoverageMask { identity, texture: 3, bbox: geo.coverage_bbox };
        let frame = effect.render(
            Some(4),
            geo,
            size,
            bits(1.0),
            coverage,
            6,
            bits(2.5),
            pipeline(),
            11,
        );
        damages.push(frame.damage);
        assert_eq!(effect.last_identity, Some(identity));
        assert_eq!(frame.ns, Some(4));
        assert_eq!(frame.params.geometry, geo.geometry);
        assert_eq!(frame.params.subregion, None);
        assert_eq!(frame.params.clip, None);
        assert_eq!(number(frame.params.scale), 1.0);
        assert_eq!(frame.options.blur.passes, 6);
        assert_eq!(number(frame.options.blur.offset), 2.5);
        assert_eq!(frame.options.blur.geo_size, size);
        assert_eq!(frame.options.blur.subregion_rects.id, 11);
        assert!(frame.options.blur.subregion_rects.rects.is_empty());
        assert!(frame.options.blur.shader_pipeline.is_some());
        assert_eq!(frame.options.mask_size, None);
        assert_eq!(f32::from_bits(frame.options.mask_uv_rect.z.bits), 1.0);
        assert_eq!(frame.options.coverage_mask, Some(coverage));
        assert_eq!((number(frame.noise), number(frame.saturation)), (0.0, 1.0));
    }
    assert_eq!(damages, vec![true, false, true, true]);
}
