//! Shader pipelines: their definition, the shaders that they name, and the key
//! under which a compiled pipeline is cached.

use std::collections::hash_map::DefaultHasher;
use std::hash::Hasher;

use vstd::bytes::{
    lemma_auto_spec_u32_to_from_le_bytes, lemma_auto_spec_u64_to_from_le_bytes,
    spec_u32_to_le_bytes, spec_u64_to_le_bytes,
};
use vstd::prelude::*;
use vstd::std_specs::hash::DefaultHasherAdditionalSpecFns;
use vstd::utf8::encode_utf8_decode_utf8;

use crate::float_bits::F32Bits;
use crate::hashing::{feed_str, feed_u32, feed_u64, feed_u8, option_chunks, string_chunks};

verus! {

// ---------------------------------------------------------------------------
// Definitions
// ---------------------------------------------------------------------------

#[derive(Clone, Copy, Debug, PartialEq, Eq, Structural)]
pub enum MaskPassKind {
    WindowVectors,
    RegionVectors,
    Custom,
}

/// A mask pass as the configuration defines it.
#[derive(Debug)]
pub struct MaskPass {
    pub kind: MaskPassKind,
    /// The shader file of a custom pass.
    pub file: Option<String>,
    pub scale: F32Bits,
}

#[derive(Clone, Copy, Debug, PartialEq, Eq, Structural)]
pub enum RenderPassKind {
    DualKawaseBlur,
    Custom,
}

/// A render pass as the configuration defines it.
#[derive(Debug)]
pub struct RenderPass {
    pub kind: RenderPassKind,
    /// The shader file of a custom pass.
    pub file: Option<String>,
    pub scale: F32Bits,
    /// Passes of a Kawase blur, in place of those of the blur options.
    pub passes: Option<u8>,
    /// Offset of a Kawase blur, in place of that of the blur options.
    pub offset: Option<F32Bits>,
}

/// A shader pipeline as the configuration defines it.
#[derive(Debug)]
pub struct ShaderPipeline {
    pub mask_passes: Vec<MaskPass>,
    pub render_passes: Vec<RenderPass>,
}

/// A mask pass whose shader has been read.
#[derive(Debug)]
pub enum MaskPassStep {
    WindowVectors,
    RegionVectors,
    Custom { name: String, source: String, scale: F32Bits },
}

/// A render pass whose shader has been read.
#[derive(Debug)]
pub enum RenderPassStep {
    DualKawaseBlur { passes: Option<u8>, offset: Option<F32Bits> },
    Custom { name: String, source: String, scale: F32Bits },
}

/// A shader pipeline whose shaders have been read.
#[derive(Debug)]
pub struct PipelineConfig {
    pub mask_passes: Vec<MaskPassStep>,
    pub render_passes: Vec<RenderPassStep>,
}

impl Clone for MaskPassStep {
    fn clone(&self) -> (r: Self)
        ensures
            r == *self,
    {
        match self {
            MaskPassStep::WindowVectors => MaskPassStep::WindowVectors,
            MaskPassStep::RegionVectors => MaskPassStep::RegionVectors,
            MaskPassStep::Custom { name, source, scale } => MaskPassStep::Custom {
                name: name.clone(),
                source: source.clone(),
                scale: *scale,
            },
        }
    }
}

impl Clone for RenderPassStep {
    fn clone(&self) -> (r: Self)
        ensures
            r == *self,
    {
        match self {
            RenderPassStep::DualKawaseBlur { passes, offset } => RenderPassStep::DualKawaseBlur {
                passes: *passes,
                offset: *offset,
            },
            RenderPassStep::Custom { name, source, scale } => RenderPassStep::Custom {
                name: name.clone(),
                source: source.clone(),
                scale: *scale,
            },
        }
    }
}

// ---------------------------------------------------------------------------
// The key of a pipeline
// ---------------------------------------------------------------------------

/// What a mask pass feeds to the hasher: all of it but its name.
pub open spec fn mask_step_chunks(step: MaskPassStep) -> Seq<Seq<u8>> {
    match step {
        MaskPassStep::WindowVectors => seq![seq![0u8]],
        MaskPassStep::RegionVectors => seq![seq![1u8]],
        MaskPassStep::Custom { source, scale, .. } => seq![seq![2u8]] + string_chunks(source@)
            + seq![spec_u32_to_le_bytes(scale.bits)],
    }
}

/// What a render pass feeds to the hasher: all of it but its name.
pub open spec fn render_step_chunks(step: RenderPassStep) -> Seq<Seq<u8>> {
    match step {
        RenderPassStep::DualKawaseBlur { passes, offset } => seq![seq![0u8]] + option_chunks(
            match passes {
                Some(p) => Some(seq![p]),
                None => None,
            },
        ) + option_chunks(
            match offset {
                Some(o) => Some(spec_u32_to_le_bytes(o.bits)),
                None => None,
            },
        ),
        RenderPassStep::Custom { source, scale, .. } => seq![seq![1u8]] + string_chunks(source@)
            + seq![spec_u32_to_le_bytes(scale.bits)],
    }
}

/// What a list of mask passes feeds to the hasher, in order.
pub open spec fn mask_chunks(steps: Seq<MaskPassStep>) -> Seq<Seq<u8>>
    decreases steps.len(),
{
    if steps.len() == 0 {
        seq![]
    } else {
        mask_chunks(steps.drop_last()) + mask_step_chunks(steps.last())
    }
}

/// What a list of render passes feeds to the hasher, in order.
pub open spec fn render_chunks(steps: Seq<RenderPassStep>) -> Seq<Seq<u8>>
    decreases steps.len(),
{
    if steps.len() == 0 {
        seq![]
    } else {
        render_chunks(steps.drop_last()) + render_step_chunks(steps.last())
    }
}

fn feed_mask_step(hasher: &mut DefaultHasher, step: &MaskPassStep)
    ensures
        final(hasher)@ == old(hasher)@ + mask_step_chunks(*step),
{
    match step {
        MaskPassStep::WindowVectors => feed_u8(hasher, 0),
        MaskPassStep::RegionVectors => feed_u8(hasher, 1),
        MaskPassStep::Custom { source, scale, .. } => {
            feed_u8(hasher, 2);
            feed_str(hasher, source.as_str());
            feed_u32(hasher, scale.bits);
        },
    }
    assert(hasher@ =~= old(hasher)@ + mask_step_chunks(*step));
}

fn feed_render_step(hasher: &mut DefaultHasher, step: &RenderPassStep)
    ensures
        final(hasher)@ == old(hasher)@ + render_step_chunks(*step),
{
    match step {
        RenderPassStep::DualKawaseBlur { passes, offset } => {
            feed_u8(hasher, 0);
            match passes {
                Some(p) => {
                    feed_u64(hasher, 1);
                    feed_u8(hasher, *p);
                },
                None => feed_u64(hasher, 0),
            }
            match offset {
                Some(o) => {
                    feed_u64(hasher, 1);
                    feed_u32(hasher, o.bits);
                },
                None => feed_u64(hasher, 0),
            }
        },
        RenderPassStep::Custom { source, scale, .. } => {
            feed_u8(hasher, 1);
            feed_str(hasher, source.as_str());
            feed_u32(hasher, scale.bits);
        },
    }
    assert(hasher@ =~= old(hasher)@ + render_step_chunks(*step));
}

impl PipelineConfig {
    /// What the pipeline feeds to the hasher.
    pub open spec fn chunks(&self) -> Seq<Seq<u8>> {
        mask_chunks(self.mask_passes@) + render_chunks(self.render_passes@)
    }

    /// The key under which the compiled pipeline is cached.
    pub fn cache_key(&self) -> (key: u64)
        ensures
            key == DefaultHasher::spec_finish(self.chunks()),
    {
        let mut hasher: DefaultHasher = DefaultHasher::new();
        let mut i: usize = 0;
        assert(hasher@ =~= mask_chunks(self.mask_passes@.take(0)));
        while i < self.mask_passes.len()
            invariant
                i <= self.mask_passes@.len(),
                hasher@ == mask_chunks(self.mask_passes@.take(i as int)),
            decreases self.mask_passes@.len() - i,
        {
            feed_mask_step(&mut hasher, &self.mask_passes[i]);
            assert(self.mask_passes@.take(i + 1).drop_last() =~= self.mask_passes@.take(i as int));
            i = i + 1;
        }
        assert(self.mask_passes@.take(i as int) =~= self.mask_passes@);
        let ghost masks = hasher@;
        let mut j: usize = 0;
        assert(hasher@ =~= masks + render_chunks(self.render_passes@.take(0)));
        while j < self.render_passes.len()
            invariant
                j <= self.render_passes@.len(),
                hasher@ == masks + render_chunks(self.render_passes@.take(j as int)),
            decreases self.render_passes@.len() - j,
        {
            feed_render_step(&mut hasher, &self.render_passes[j]);
            assert(self.render_passes@.take(j + 1).drop_last() =~= self.render_passes@.take(
                j as int,
            ));
            assert(hasher@ =~= masks + render_chunks(self.render_passes@.take(j + 1)));
            j = j + 1;
        }
        assert(self.render_passes@.take(j as int) =~= self.render_passes@);
        hasher.finish()
    }
}

/// Two mask passes that differ in nothing but a name.
pub open spec fn same_mask_shader(a: MaskPassStep, b: MaskPassStep) -> bool {
    match (a, b) {
        (
            MaskPassStep::Custom { source: s, scale: k, .. },
            MaskPassStep::Custom { source: t, scale: l, .. },
        ) => s@ == t@ && k == l,
        _ => a == b,
    }
}

/// Two render passes that differ in nothing but a name.
pub open spec fn same_render_shader(a: RenderPassStep, b: RenderPassStep) -> bool {
    match (a, b) {
        (
            RenderPassStep::Custom { source: s, scale: k, .. },
            RenderPassStep::Custom { source: t, scale: l, .. },
        ) => s@ == t@ && k == l,
        _ => a == b,
    }
}

/// The lists of mask passes differ in nothing but names.
pub open spec fn same_mask_shaders(a: Seq<MaskPassStep>, b: Seq<MaskPassStep>) -> bool {
    &&& a.len() == b.len()
    &&& forall|i: int| 0 <= i < a.len() ==> same_mask_shader(#[trigger] a[i], #[trigger] b[i])
}

/// The lists of render passes differ in nothing but names.
pub open spec fn same_render_shaders(a: Seq<RenderPassStep>, b: Seq<RenderPassStep>) -> bool {
    &&& a.len() == b.len()
    &&& forall|i: int| 0 <= i < a.len() ==> same_render_shader(#[trigger] a[i], #[trigger] b[i])
}

proof fn lemma_mask_chunks_by_shaders(a: Seq<MaskPassStep>, b: Seq<MaskPassStep>)
    requires
        a.len() == b.len(),
        forall|i: int| 0 <= i < a.len() ==> same_mask_shader(#[trigger] a[i], #[trigger] b[i]),
    ensures
        mask_chunks(a) == mask_chunks(b),
    decreases a.len(),
{
    if a.len() > 0 {
        assert(same_mask_shader(a[a.len() - 1], b[b.len() - 1]));
        lemma_mask_chunks_by_shaders(a.drop_last(), b.drop_last());
    }
}

proof fn lemma_render_chunks_by_shaders(a: Seq<RenderPassStep>, b: Seq<RenderPassStep>)
    requires
        a.len() == b.len(),
        forall|i: int| 0 <= i < a.len() ==> same_render_shader(#[trigger] a[i], #[trigger] b[i]),
    ensures
        render_chunks(a) == render_chunks(b),
    decreases a.len(),
{
    if a.len() > 0 {
        assert(same_render_shader(a[a.len() - 1], b[b.len() - 1]));
        lemma_render_chunks_by_shaders(a.drop_last(), b.drop_last());
    }
}

/// The key goes by the shaders, not by the names of the files that they came
/// from.
pub proof fn law_key_ignores_names(a: PipelineConfig, b: PipelineConfig)
    requires
        same_mask_shaders(a.mask_passes@, b.mask_passes@),
        same_render_shaders(a.render_passes@, b.render_passes@),
    ensures
        DefaultHasher::spec_finish(a.chunks()) == DefaultHasher::spec_finish(b.chunks()),
{
    lemma_mask_chunks_by_shaders(a.mask_passes@, b.mask_passes@);
    lemma_render_chunks_by_shaders(a.render_passes@, b.render_passes@);
}

/// What the end of a step that reads a shader looks like: a byte for its kind, the
/// shader, and its scale.
proof fn lemma_shader_ends(
    a: Seq<Seq<u8>>,
    b: Seq<Seq<u8>>,
    kind_a: u8,
    kind_b: u8,
    source_a: Seq<char>,
    source_b: Seq<char>,
    scale_a: F32Bits,
    scale_b: F32Bits,
)
    requires
        a + (seq![seq![kind_a]] + string_chunks(source_a) + seq![spec_u32_to_le_bytes(scale_a.bits)])
            == b + (seq![seq![kind_b]] + string_chunks(source_b) + seq![
            spec_u32_to_le_bytes(scale_b.bits),
        ]),
    ensures
        a == b,
        kind_a == kind_b,
        source_a == source_b,
        scale_a == scale_b,
{
    let x = seq![seq![kind_a]] + string_chunks(source_a) + seq![spec_u32_to_le_bytes(scale_a.bits)];
    let y = seq![seq![kind_b]] + string_chunks(source_b) + seq![spec_u32_to_le_bytes(scale_b.bits)];
    lemma_ends(a, x, b, y);
    assert(x[0] == y[0] && x[1] == y[1] && x[3] == y[3]);
    assert(x[0][0] == y[0][0]);
    encode_utf8_decode_utf8(source_a);
    encode_utf8_decode_utf8(source_b);
    lemma_auto_spec_u32_to_from_le_bytes();
    assert(spec_u32_to_le_bytes(scale_a.bits).len() == spec_u32_to_le_bytes(scale_b.bits).len());
}

/// Two ends of one length are the same end of the same sequence.
proof fn lemma_ends(a: Seq<Seq<u8>>, x: Seq<Seq<u8>>, b: Seq<Seq<u8>>, y: Seq<Seq<u8>>)
    requires
        a + x == b + y,
        x.len() == y.len(),
    ensures
        a == b,
        x == y,
{
    assert((a + x).len() == a.len() + x.len());
    assert((b + y).len() == b.len() + y.len());
    assert forall|i: int| 0 <= i < a.len() implies a[i] == b[i] by {
        assert((a + x)[i] == a[i]);
        assert((b + y)[i] == b[i]);
    }
    assert forall|i: int| 0 <= i < x.len() implies x[i] == y[i] by {
        assert((a + x)[a.len() + i] == x[i]);
        assert((b + y)[b.len() + i] == y[i]);
    }
    assert(a =~= b);
    assert(x =~= y);
}

/// Counted from the end, the chunks of two sequences are the same.
proof fn lemma_from_the_end(a: Seq<Seq<u8>>, x: Seq<Seq<u8>>, b: Seq<Seq<u8>>, y: Seq<Seq<u8>>)
    requires
        a + x == b + y,
    ensures
        forall|k: int|
            1 <= k <= x.len() && k <= y.len() ==> #[trigger] from_end(x, k) == from_end(y, k),
{
    assert forall|k: int| 1 <= k <= x.len() && k <= y.len() implies #[trigger] from_end(x, k)
        == from_end(y, k) by {
        assert((a + x)[(a + x).len() - k] == x[x.len() - k]);
        assert((b + y)[(b + y).len() - k] == y[y.len() - k]);
    }
}

spec fn from_end(x: Seq<Seq<u8>>, k: int) -> Seq<u8> {
    x[x.len() - k]
}

/// The chunks that are looked at from the end of a step have these lengths.
proof fn lemma_chunk_lengths()
    ensures
        forall|x: u32| #[trigger] spec_u32_to_le_bytes(x).len() == 4,
        forall|x: u64| #[trigger] spec_u64_to_le_bytes(x).len() == 8,
        forall|x: u32, y: u32|
            spec_u32_to_le_bytes(x) == spec_u32_to_le_bytes(y) ==> x == y,
{
    assert forall|x: u32| #[trigger] spec_u32_to_le_bytes(x).len() == 4 by {
        lemma_auto_spec_u32_to_from_le_bytes();
    }
    assert forall|x: u64| #[trigger] spec_u64_to_le_bytes(x).len() == 8 by {
        lemma_auto_spec_u64_to_from_le_bytes();
    }
    assert forall|x: u32, y: u32|
        spec_u32_to_le_bytes(x) == spec_u32_to_le_bytes(y) implies x == y by {
        lemma_auto_spec_u32_to_from_le_bytes();
        assert(spec_u32_to_le_bytes(x).len() == spec_u32_to_le_bytes(y).len());
    }
}

/// The last mask pass can be told from what it feeds to the hasher.
proof fn lemma_last_mask_step(a: Seq<Seq<u8>>, s: MaskPassStep, b: Seq<Seq<u8>>, t: MaskPassStep)
    requires
        a + mask_step_chunks(s) == b + mask_step_chunks(t),
    ensures
        a == b,
        same_mask_shader(s, t),
{
    let x = mask_step_chunks(s);
    let y = mask_step_chunks(t);
    lemma_chunk_lengths();
    lemma_from_the_end(a, x, b, y);
    assert(from_end(x, 1) == from_end(y, 1));
    if s is Custom && t is Custom {
        lemma_shader_ends(
            a,
            b,
            2,
            2,
            s->Custom_source@,
            t->Custom_source@,
            s->Custom_scale,
            t->Custom_scale,
        );
    } else {
        assert(from_end(x, 1).len() == from_end(y, 1).len());
        assert(from_end(x, 1)[0] == from_end(y, 1)[0]);
        lemma_ends(a, x, b, y);
    }
}

/// The last render pass can be told from what it feeds to the hasher.
proof fn lemma_last_render_step(
    a: Seq<Seq<u8>>,
    s: RenderPassStep,
    b: Seq<Seq<u8>>,
    t: RenderPassStep,
)
    requires
        a + render_step_chunks(s) == b + render_step_chunks(t),
    ensures
        a == b,
        same_render_shader(s, t),
{
    let x = render_step_chunks(s);
    let y = render_step_chunks(t);
    lemma_chunk_lengths();
    lemma_from_the_end(a, x, b, y);
    assert(from_end(x, 1) == from_end(y, 1));
    assert(from_end(x, 2) == from_end(y, 2));
    assert(from_end(x, 3) == from_end(y, 3));
    match (s, t) {
        (
            RenderPassStep::Custom { source, scale, .. },
            RenderPassStep::Custom { source: other, scale: other_scale, .. },
        ) => {
            lemma_shader_ends(a, b, 1, 1, source@, other@, scale, other_scale);
        },
        (
            RenderPassStep::DualKawaseBlur { passes, offset },
            RenderPassStep::DualKawaseBlur { passes: other, offset: other_offset },
        ) => {
            assert(from_end(x, 1).len() == from_end(y, 1).len());
            assert(offset is Some <==> other_offset is Some);
            if offset is Some {
                assert(offset.unwrap().bits == other_offset.unwrap().bits);
            }
            let k: int = if offset is Some { 3 } else { 2 };
            assert(from_end(x, k) == from_end(y, k));
            assert(from_end(x, k).len() == from_end(y, k).len());
            assert(passes is Some <==> other is Some);
            if passes is Some {
                assert(from_end(x, k)[0] == passes.unwrap());
                assert(from_end(y, k)[0] == other.unwrap());
            }
            lemma_ends(a, x, b, y);
        },
        _ => {
            assert(from_end(x, 1).len() == from_end(y, 1).len());
            assert(from_end(x, 2).len() == from_end(y, 2).len());
        },
    }
}

/// No render pass feeds the same to the hasher as a mask pass does.
proof fn lemma_render_is_no_mask(a: Seq<Seq<u8>>, s: RenderPassStep, b: Seq<Seq<u8>>, t: MaskPassStep)
    ensures
        a + render_step_chunks(s) != b + mask_step_chunks(t),
{
    let x = render_step_chunks(s);
    let y = mask_step_chunks(t);
    if a + x == b + y {
        lemma_chunk_lengths();
        lemma_from_the_end(a, x, b, y);
        assert(from_end(x, 1) == from_end(y, 1));
        assert(from_end(x, 1).len() == from_end(y, 1).len());
        assert(t is Custom);
        assert(from_end(x, 2) == from_end(y, 2));
        assert(from_end(x, 2).len() == from_end(y, 2).len());
        assert(s is Custom);
        lemma_shader_ends(
            a,
            b,
            1,
            2,
            s->Custom_source@,
            t->Custom_source@,
            s->Custom_scale,
            t->Custom_scale,
        );
    }
}

proof fn lemma_masks_are_told_apart(a: Seq<MaskPassStep>, b: Seq<MaskPassStep>)
    requires
        mask_chunks(a) == mask_chunks(b),
    ensures
        same_mask_shaders(a, b),
    decreases a.len(),
{
    if a.len() > 0 && b.len() > 0 {
        lemma_last_mask_step(
            mask_chunks(a.drop_last()),
            a.last(),
            mask_chunks(b.drop_last()),
            b.last(),
        );
        lemma_masks_are_told_apart(a.drop_last(), b.drop_last());
        assert forall|i: int| 0 <= i < a.len() implies same_mask_shader(
            #[trigger] a[i],
            #[trigger] b[i],
        ) by {
            if i < a.len() - 1 {
                assert(a.drop_last()[i] == a[i] && b.drop_last()[i] == b[i]);
            }
        }
    } else if a.len() > 0 {
        assert(mask_step_chunks(a.last()).len() > 0);
    } else if b.len() > 0 {
        assert(mask_step_chunks(b.last()).len() > 0);
    }
}

proof fn lemma_renders_are_told_apart(
    masks_a: Seq<MaskPassStep>,
    a: Seq<RenderPassStep>,
    masks_b: Seq<MaskPassStep>,
    b: Seq<RenderPassStep>,
)
    requires
        mask_chunks(masks_a) + render_chunks(a) == mask_chunks(masks_b) + render_chunks(b),
    ensures
        mask_chunks(masks_a) == mask_chunks(masks_b),
        same_render_shaders(a, b),
    decreases a.len() + b.len(),
{
    let ma = mask_chunks(masks_a);
    let mb = mask_chunks(masks_b);
    if a.len() > 0 && b.len() > 0 {
        let front_a = ma + render_chunks(a.drop_last());
        let front_b = mb + render_chunks(b.drop_last());
        assert(ma + render_chunks(a) =~= front_a + render_step_chunks(a.last()));
        assert(mb + render_chunks(b) =~= front_b + render_step_chunks(b.last()));
        lemma_last_render_step(front_a, a.last(), front_b, b.last());
        lemma_renders_are_told_apart(masks_a, a.drop_last(), masks_b, b.drop_last());
        assert forall|i: int| 0 <= i < a.len() implies same_render_shader(
            #[trigger] a[i],
            #[trigger] b[i],
        ) by {
            if i < a.len() - 1 {
                assert(a.drop_last()[i] == a[i] && b.drop_last()[i] == b[i]);
            }
        }
    } else if a.len() > 0 {
        lemma_render_meets_no_mask(masks_a, a, masks_b);
        assert(mb + render_chunks(b) =~= mb);
    } else if b.len() > 0 {
        lemma_render_meets_no_mask(masks_b, b, masks_a);
        assert(ma + render_chunks(a) =~= ma);
    } else {
        assert(ma + render_chunks(a) =~= ma);
        assert(mb + render_chunks(b) =~= mb);
    }
}

/// A pipeline that ends in a render pass does not feed what mask passes alone do.
proof fn lemma_render_meets_no_mask(
    masks: Seq<MaskPassStep>,
    renders: Seq<RenderPassStep>,
    others: Seq<MaskPassStep>,
)
    requires
        renders.len() > 0,
    ensures
        mask_chunks(masks) + render_chunks(renders) != mask_chunks(others),
{
    let front = mask_chunks(masks) + render_chunks(renders.drop_last());
    let last = render_step_chunks(renders.last());
    assert(mask_chunks(masks) + render_chunks(renders) =~= front + last);
    if others.len() > 0 {
        lemma_render_is_no_mask(
            front,
            renders.last(),
            mask_chunks(others.drop_last()),
            others.last(),
        );
    } else {
        assert(last.len() > 0);
    }
}

/// What the hasher is fed, write by write, tells any two pipelines apart that
/// differ in more than names: in the kind or number of their passes, a shader, a
/// scale, or the passes or offset of a Kawase blur. Strung together, the bytes of
/// different pipelines can still agree.
pub proof fn law_pipelines_are_told_apart(a: PipelineConfig, b: PipelineConfig)
    requires
        a.chunks() == b.chunks(),
    ensures
        same_mask_shaders(a.mask_passes@, b.mask_passes@),
        same_render_shaders(a.render_passes@, b.render_passes@),
{
    lemma_renders_are_told_apart(a.mask_passes@, a.render_passes@, b.mask_passes@, b.render_passes@);
    lemma_masks_are_told_apart(a.mask_passes@, b.mask_passes@);
}

// ---------------------------------------------------------------------------
// Resolving a pipeline
// ---------------------------------------------------------------------------

/// What is wrong with a custom pass.
#[derive(Clone, Copy, Debug, PartialEq, Eq, Structural)]
pub enum PassFault {
    /// It names no shader file.
    MissingFile,
    /// Its scale is not a positive number.
    ScaleNotPositive,
    /// Its shader file has not been read.
    Unread,
}

/// Why a pipeline cannot be resolved.
#[derive(Clone, Copy, Debug, PartialEq, Eq, Structural)]
pub enum ResolveError {
    MaskPass { index: usize, fault: PassFault },
    /// A pipeline must have at least one render pass.
    NoRenderPasses,
    RenderPass { index: usize, fault: PassFault },
}

/// The first fault of a custom pass.
pub open spec fn custom_fault(file: Option<String>, scale: F32Bits, read: bool) -> Option<
    PassFault,
> {
    if file is None {
        Some(PassFault::MissingFile)
    } else if !scale.above_zero() {
        Some(PassFault::ScaleNotPositive)
    } else if !read {
        Some(PassFault::Unread)
    } else {
        None
    }
}

fn find_custom_fault(file: &Option<String>, scale: F32Bits, read: bool) -> (fault: Option<
    PassFault,
>)
    ensures
        fault == custom_fault(*file, scale, read),
{
    if file.is_none() {
        Some(PassFault::MissingFile)
    } else if !scale.is_positive() {
        Some(PassFault::ScaleNotPositive)
    } else if !read {
        Some(PassFault::Unread)
    } else {
        None
    }
}

impl ShaderPipeline {
    /// The number of custom passes among the first mask passes: the shader of a
    /// mask pass has this place among those read.
    pub open spec fn mask_place(&self, i: nat) -> nat
        decreases i,
    {
        if i == 0 {
            0
        } else {
            self.mask_place((i - 1) as nat) + if self.mask_passes@[i - 1].kind is Custom {
                1nat
            } else {
                0
            }
        }
    }

    /// The place of the shader of a render pass among those read: after all of the
    /// mask passes.
    pub open spec fn render_place(&self, i: nat) -> nat
        decreases i,
    {
        if i == 0 {
            self.mask_place(self.mask_passes@.len())
        } else {
            self.render_place((i - 1) as nat) + if self.render_passes@[i - 1].kind is Custom {
                1nat
            } else {
                0
            }
        }
    }

    /// The fault of a mask pass, after so many shaders have been read.
    pub open spec fn mask_fault(&self, i: nat, reads: nat) -> Option<PassFault> {
        let pass = self.mask_passes@[i as int];
        if pass.kind is Custom {
            custom_fault(pass.file, pass.scale, self.mask_place(i) < reads)
        } else {
            None
        }
    }

    /// The fault of a render pass, after so many shaders have been read.
    pub open spec fn render_fault(&self, i: nat, reads: nat) -> Option<PassFault> {
        let pass = self.render_passes@[i as int];
        if pass.kind is Custom {
            custom_fault(pass.file, pass.scale, self.render_place(i) < reads)
        } else {
            None
        }
    }

    /// The first error of the mask passes from one on.
    pub open spec fn mask_error(&self, i: nat, reads: nat) -> Option<ResolveError>
        decreases self.mask_passes@.len() - i,
    {
        if i >= self.mask_passes@.len() {
            None
        } else {
            match self.mask_fault(i, reads) {
                Some(fault) => Some(ResolveError::MaskPass { index: i as usize, fault }),
                None => self.mask_error(i + 1, reads),
            }
        }
    }

    /// The first error of the render passes from one on.
    pub open spec fn render_error(&self, i: nat, reads: nat) -> Option<ResolveError>
        decreases self.render_passes@.len() - i,
    {
        if i >= self.render_passes@.len() {
            None
        } else {
            match self.render_fault(i, reads) {
                Some(fault) => Some(ResolveError::RenderPass { index: i as usize, fault }),
                None => self.render_error(i + 1, reads),
            }
        }
    }

    /// The first error of the pipeline, after so many shaders have been read: the
    /// mask passes come first, then that there are no render passes, then those.
    pub open spec fn error(&self, reads: nat) -> Option<ResolveError> {
        match self.mask_error(0, reads) {
            Some(e) => Some(e),
            None => if self.render_passes@.len() == 0 {
                Some(ResolveError::NoRenderPasses)
            } else {
                self.render_error(0, reads)
            },
        }
    }

    /// The shader file whose reading alone keeps the pipeline from being resolved
    /// further.
    pub open spec fn unread_file(&self, reads: nat) -> Option<String> {
        match self.error(reads) {
            Some(
                ResolveError::MaskPass { index, fault: PassFault::Unread },
            ) => self.mask_passes@[index as int].file,
            Some(
                ResolveError::RenderPass { index, fault: PassFault::Unread },
            ) => self.render_passes@[index as int].file,
            _ => None,
        }
    }

    /// The error of the mask passes is the first of their faults.
    pub proof fn lemma_mask_error_is_first(&self, i: nat, reads: nat)
        requires
            i <= self.mask_passes@.len(),
        ensures
            (match self.mask_error(i, reads) {
                Some(e) => {
                    &&& e matches ResolveError::MaskPass { index, fault }
                    &&& i <= index < self.mask_passes@.len()
                    &&& self.mask_fault(index as nat, reads) == Some(fault)
                    &&& forall|j: nat| i <= j < index ==> self.mask_fault(j, reads) is None
                },
                None => forall|j: nat|
                    i <= j < self.mask_passes@.len() ==> self.mask_fault(j, reads) is None,
            }),
        decreases self.mask_passes@.len() - i,
    {
        assert(self.mask_passes@.len() == self.mask_passes.len());
        if i < self.mask_passes@.len() && self.mask_fault(i, reads) is None {
            self.lemma_mask_error_is_first(i + 1, reads);
        }
    }

    /// The error of the render passes is the first of their faults.
    pub proof fn lemma_render_error_is_first(&self, i: nat, reads: nat)
        requires
            i <= self.render_passes@.len(),
        ensures
            (match self.render_error(i, reads) {
                Some(e) => {
                    &&& e matches ResolveError::RenderPass { index, fault }
                    &&& i <= index < self.render_passes@.len()
                    &&& self.render_fault(index as nat, reads) == Some(fault)
                    &&& forall|j: nat| i <= j < index ==> self.render_fault(j, reads) is None
                },
                None => forall|j: nat|
                    i <= j < self.render_passes@.len() ==> self.render_fault(j, reads) is None,
            }),
        decreases self.render_passes@.len() - i,
    {
        assert(self.render_passes@.len() == self.render_passes.len());
        if i < self.render_passes@.len() && self.render_fault(i, reads) is None {
            self.lemma_render_error_is_first(i + 1, reads);
        }
    }

    /// Find the first error of the pipeline.
    fn find_error(&self, reads: usize) -> (error: Option<ResolveError>)
        ensures
            error == self.error(reads as nat),
    {
        let mut left: usize = reads;
        let mut i: usize = 0;
        while i < self.mask_passes.len()
            invariant
                i <= self.mask_passes@.len(),
                left == if self.mask_place(i as nat) <= reads {
                    reads - self.mask_place(i as nat)
                } else {
                    0
                },
                self.mask_error(0, reads as nat) == self.mask_error(i as nat, reads as nat),
            decreases self.mask_passes@.len() - i,
        {
            let pass: &MaskPass = &self.mask_passes[i];
            if pass.kind == MaskPassKind::Custom {
                match find_custom_fault(&pass.file, pass.scale, left > 0) {
                    Some(fault) => {
                        return Some(ResolveError::MaskPass { index: i, fault });
                    },
                    None => {},
                }
                left = left - 1;
            }
            i = i + 1;
        }
        if self.render_passes.len() == 0 {
            return Some(ResolveError::NoRenderPasses);
        }
        let mut j: usize = 0;
        while j < self.render_passes.len()
            invariant
                j <= self.render_passes@.len(),
                left == if self.render_place(j as nat) <= reads {
                    reads - self.render_place(j as nat)
                } else {
                    0
                },
                self.mask_error(0, reads as nat) is None,
                self.render_passes@.len() > 0,
                self.render_error(0, reads as nat) == self.render_error(j as nat, reads as nat),
            decreases self.render_passes@.len() - j,
        {
            let pass: &RenderPass = &self.render_passes[j];
            if pass.kind == RenderPassKind::Custom {
                match find_custom_fault(&pass.file, pass.scale, left > 0) {
                    Some(fault) => {
                        return Some(ResolveError::RenderPass { index: j, fault });
                    },
                    None => {},
                }
                left = left - 1;
            }
            j = j + 1;
        }
        None
    }
}

/// The shader file to read next, after so many have been read; none once the
/// pipeline is either complete or known to be invalid.
pub fn next_shader_file(pipeline: &ShaderPipeline, reads: usize) -> (file: Option<&String>)
    ensures
        (match file {
            Some(f) => pipeline.unread_file(reads as nat) == Some(*f),
            None => pipeline.unread_file(reads as nat) is None,
        }),
{
    let error: Option<ResolveError> = pipeline.find_error(reads);
    proof {
        pipeline.lemma_mask_error_is_first(0, reads as nat);
        pipeline.lemma_render_error_is_first(0, reads as nat);
    }
    match error {
        Some(ResolveError::MaskPass { index, fault: PassFault::Unread }) => {
            pipeline.mask_passes[index].file.as_ref()
        },
        Some(ResolveError::RenderPass { index, fault: PassFault::Unread }) => {
            pipeline.render_passes[index].file.as_ref()
        },
        _ => None,
    }
}

impl ShaderPipeline {
    proof fn lemma_mask_places_read(&self, i: nat, reads: nat)
        requires
            i <= self.mask_passes@.len(),
            forall|j: nat| j < i ==> self.mask_fault(j, reads) is None,
        ensures
            self.mask_place(i) <= reads,
        decreases i,
    {
        if i > 0 {
            assert(self.mask_fault((i - 1) as nat, reads) is None);
            self.lemma_mask_places_read((i - 1) as nat, reads);
        }
    }

    proof fn lemma_render_places_read(&self, i: nat, reads: nat)
        requires
            i <= self.render_passes@.len(),
            self.mask_place(self.mask_passes@.len()) <= reads,
            forall|j: nat| j < i ==> self.render_fault(j, reads) is None,
        ensures
            self.render_place(i) <= reads,
        decreases i,
    {
        if i > 0 {
            assert(self.render_fault((i - 1) as nat, reads) is None);
            self.lemma_render_places_read((i - 1) as nat, reads);
        }
    }
}

/// Shaders are asked for in the order of the passes: the one that is asked for
/// next is the one whose place comes right after those already read.
pub proof fn law_shaders_are_asked_in_order(pipeline: ShaderPipeline, reads: nat)
    ensures
        (match pipeline.error(reads) {
            Some(
                ResolveError::MaskPass { index, fault: PassFault::Unread },
            ) => pipeline.mask_place(index as nat) == reads,
            Some(
                ResolveError::RenderPass { index, fault: PassFault::Unread },
            ) => pipeline.render_place(index as nat) == reads,
            _ => true,
        }),
{
    pipeline.lemma_mask_error_is_first(0, reads);
    pipeline.lemma_render_error_is_first(0, reads);
    match pipeline.error(reads) {
        Some(ResolveError::MaskPass { index, fault: PassFault::Unread }) => {
            pipeline.lemma_mask_places_read(index as nat, reads);
        },
        Some(ResolveError::RenderPass { index, fault: PassFault::Unread }) => {
            pipeline.lemma_mask_places_read(pipeline.mask_passes@.len(), reads);
            pipeline.lemma_render_places_read(index as nat, reads);
        },
        _ => {},
    }
}

/// The step that a mask pass resolves to.
pub open spec fn is_mask_step(step: MaskPassStep, pass: MaskPass, shader: Seq<char>) -> bool {
    match pass.kind {
        MaskPassKind::WindowVectors => step is WindowVectors,
        MaskPassKind::RegionVectors => step is RegionVectors,
        MaskPassKind::Custom => {
            &&& step matches MaskPassStep::Custom { name, source, scale }
            &&& name@ == pass.file.unwrap()@
            &&& source@ == shader
            &&& scale == pass.scale
        },
    }
}

/// The step that a render pass resolves to.
pub open spec fn is_render_step(step: RenderPassStep, pass: RenderPass, shader: Seq<char>) -> bool {
    match pass.kind {
        RenderPassKind::DualKawaseBlur => {
            &&& step matches RenderPassStep::DualKawaseBlur { passes, offset }
            &&& passes == pass.passes
            &&& offset == pass.offset
        },
        RenderPassKind::Custom => {
            &&& step matches RenderPassStep::Custom { name, source, scale }
            &&& name@ == pass.file.unwrap()@
            &&& source@ == shader
            &&& scale == pass.scale
        },
    }
}

/// The pipeline that a definition resolves to, with the shaders in the order in
/// which the passes need them.
pub open spec fn is_resolved(
    config: PipelineConfig,
    pipeline: ShaderPipeline,
    shaders: Seq<String>,
) -> bool {
    &&& config.mask_passes@.len() == pipeline.mask_passes@.len()
    &&& config.render_passes@.len() == pipeline.render_passes@.len()
    &&& forall|i: int|
        0 <= i < config.mask_passes@.len() ==> is_mask_step(
            #[trigger] config.mask_passes@[i],
            pipeline.mask_passes@[i],
            shaders[pipeline.mask_place(i as nat) as int]@,
        )
    &&& forall|i: int|
        0 <= i < config.render_passes@.len() ==> is_render_step(
            #[trigger] config.render_passes@[i],
            pipeline.render_passes@[i],
            shaders[pipeline.render_place(i as nat) as int]@,
        )
}

/// Resolve a pipeline with the shaders that have been read for it.
///
/// It fails on the first error, if there is one; a pass whose shader is not among
/// those read counts as an error.
pub fn resolve_pipeline(pipeline: &ShaderPipeline, shaders: &Vec<String>) -> (result: Result<
    PipelineConfig,
    ResolveError,
>)
    ensures
        (match result {
            Err(e) => pipeline.error(shaders@.len()) == Some(e),
            Ok(config) => pipeline.error(shaders@.len()) is None && is_resolved(
                config,
                *pipeline,
                shaders@,
            ),
        }),
{
    let ghost reads = shaders@.len();
    match pipeline.find_error(shaders.len()) {
        Some(e) => {
            return Err(e);
        },
        None => {},
    }
    proof {
        pipeline.lemma_mask_error_is_first(0, reads);
        pipeline.lemma_render_error_is_first(0, reads);
    }
    let mut next: usize = 0;
    let mut mask_passes: Vec<MaskPassStep> = Vec::new();
    while mask_passes.len() < pipeline.mask_passes.len()
        invariant
            mask_passes@.len() <= pipeline.mask_passes@.len(),
            reads == shaders@.len(),
            next == pipeline.mask_place(mask_passes@.len()),
            forall|j: nat|
                j < pipeline.mask_passes@.len() ==> pipeline.mask_fault(j, reads) is None,
            forall|i: int|
                0 <= i < mask_passes@.len() ==> is_mask_step(
                    #[trigger] mask_passes@[i],
                    pipeline.mask_passes@[i],
                    shaders[pipeline.mask_place(i as nat) as int]@,
                ),
        decreases pipeline.mask_passes@.len() - mask_passes@.len(),
    {
        let i: usize = mask_passes.len();
        assert(pipeline.mask_fault(i as nat, reads) is None);
        let pass: &MaskPass = &pipeline.mask_passes[i];
        let step: MaskPassStep = match pass.kind {
            MaskPassKind::WindowVectors => MaskPassStep::WindowVectors,
            MaskPassKind::RegionVectors => MaskPassStep::RegionVectors,
            MaskPassKind::Custom => {
                let place: usize = next;
                assert(place < shaders.len());
                next = next + 1;
                MaskPassStep::Custom {
                    name: pass.file.as_ref().unwrap().clone(),
                    source: shaders[place].clone(),
                    scale: pass.scale,
                }
            },
        };
        mask_passes.push(step);
    }
    let mut render_passes: Vec<RenderPassStep> = Vec::new();
    while render_passes.len() < pipeline.render_passes.len()
        invariant
            render_passes@.len() <= pipeline.render_passes@.len(),
            reads == shaders@.len(),
            next == pipeline.render_place(render_passes@.len()),
            forall|j: nat|
                j < pipeline.render_passes@.len() ==> pipeline.render_fault(j, reads) is None,
            forall|i: int|
                0 <= i < render_passes@.len() ==> is_render_step(
                    #[trigger] render_passes@[i],
                    pipeline.render_passes@[i],
                    shaders[pipeline.render_place(i as nat) as int]@,
                ),
        decreases pipeline.render_passes@.len() - render_passes@.len(),
    {
        let i: usize = render_passes.len();
        assert(pipeline.render_fault(i as nat, reads) is None);
        let pass: &RenderPass = &pipeline.render_passes[i];
        let step: RenderPassStep = match pass.kind {
            RenderPassKind::DualKawaseBlur => RenderPassStep::DualKawaseBlur {
                passes: pass.passes,
                offset: pass.offset,
            },
            RenderPassKind::Custom => {
                let place: usize = next;
                assert(place < shaders.len());
                next = next + 1;
                RenderPassStep::Custom {
                    name: pass.file.as_ref().unwrap().clone(),
                    source: shaders[place].clone(),
                    scale: pass.scale,
                }
            },
        };
        render_passes.push(step);
    }
    Ok(PipelineConfig { mask_passes, render_passes })
}

// ---------------------------------------------------------------------------
// Each custom pass has its own shader
// ---------------------------------------------------------------------------

/// The custom passes among the first mask passes.
pub open spec fn custom_masks(pipeline: ShaderPipeline, i: int) -> Seq<MaskPass> {
    pipeline.mask_passes@.take(i).filter(|pass: MaskPass| pass.kind is Custom)
}

/// The custom passes among the first render passes.
pub open spec fn custom_renders(pipeline: ShaderPipeline, i: int) -> Seq<RenderPass> {
    pipeline.render_passes@.take(i).filter(|pass: RenderPass| pass.kind is Custom)
}

proof fn lemma_mask_place_counts(pipeline: ShaderPipeline, i: nat)
    requires
        i <= pipeline.mask_passes@.len(),
    ensures
        pipeline.mask_place(i) == custom_masks(pipeline, i as int).len(),
    decreases i,
{
    reveal(Seq::filter);
    if i > 0 {
        lemma_mask_place_counts(pipeline, (i - 1) as nat);
        let all = pipeline.mask_passes@.take(i as int);
        assert(all.drop_last() =~= pipeline.mask_passes@.take(i - 1));
        assert(all.last() == pipeline.mask_passes@[i - 1]);
    } else {
        assert(pipeline.mask_passes@.take(0).len() == 0);
    }
}

proof fn lemma_render_place_counts(pipeline: ShaderPipeline, i: nat)
    requires
        i <= pipeline.render_passes@.len(),
    ensures
        pipeline.render_place(i) == custom_masks(
            pipeline,
            pipeline.mask_passes@.len() as int,
        ).len() + custom_renders(pipeline, i as int).len(),
    decreases i,
{
    reveal(Seq::filter);
    if i > 0 {
        lemma_render_place_counts(pipeline, (i - 1) as nat);
        let all = pipeline.render_passes@.take(i as int);
        assert(all.drop_last() =~= pipeline.render_passes@.take(i - 1));
        assert(all.last() == pipeline.render_passes@[i - 1]);
    } else {
        lemma_mask_place_counts(pipeline, pipeline.mask_passes@.len());
        assert(pipeline.render_passes@.take(0).len() == 0);
    }
}

proof fn lemma_mask_place_grows(pipeline: ShaderPipeline, i: nat, j: nat)
    requires
        i < j <= pipeline.mask_passes@.len(),
    ensures
        pipeline.mask_place(i) <= pipeline.mask_place(j),
        pipeline.mask_passes@[i as int].kind is Custom ==> pipeline.mask_place(i)
            < pipeline.mask_place(j),
    decreases j,
{
    if i + 1 < j {
        lemma_mask_place_grows(pipeline, i, (j - 1) as nat);
    }
}

proof fn lemma_render_place_grows(pipeline: ShaderPipeline, i: nat, j: nat)
    requires
        i < j <= pipeline.render_passes@.len(),
    ensures
        pipeline.render_place(i) <= pipeline.render_place(j),
        pipeline.render_passes@[i as int].kind is Custom ==> pipeline.render_place(i)
            < pipeline.render_place(j),
    decreases j,
{
    if i + 1 < j {
        lemma_render_place_grows(pipeline, i, (j - 1) as nat);
    }
}

/// What a pipeline resolves to, pass by pass: the kind of each pass is kept; a Kawase
/// blur keeps its passes and offset; a custom pass keeps its file as its name and its
/// scale, and its source is the shader whose place is the number of custom passes that
/// come before it, the mask passes first. So no two custom passes share a shader.
pub proof fn law_resolved_passes_have_their_own_shaders(
    config: PipelineConfig,
    pipeline: ShaderPipeline,
    shaders: Seq<String>,
    i: int,
)
    requires
        is_resolved(config, pipeline, shaders),
    ensures
        config.mask_passes@.len() == pipeline.mask_passes@.len(),
        config.render_passes@.len() == pipeline.render_passes@.len(),
        0 <= i < pipeline.mask_passes@.len() ==> (match config.mask_passes@[i] {
            MaskPassStep::WindowVectors => pipeline.mask_passes@[i].kind is WindowVectors,
            MaskPassStep::RegionVectors => pipeline.mask_passes@[i].kind is RegionVectors,
            MaskPassStep::Custom { name, source, scale } => {
                &&& pipeline.mask_passes@[i].kind is Custom
                &&& name@ == pipeline.mask_passes@[i].file.unwrap()@
                &&& scale == pipeline.mask_passes@[i].scale
                &&& source@ == shaders[custom_masks(pipeline, i).len() as int]@
            },
        }),
        0 <= i < pipeline.render_passes@.len() ==> (match config.render_passes@[i] {
            RenderPassStep::DualKawaseBlur { passes, offset } => {
                &&& pipeline.render_passes@[i].kind is DualKawaseBlur
                &&& passes == pipeline.render_passes@[i].passes
                &&& offset == pipeline.render_passes@[i].offset
            },
            RenderPassStep::Custom { name, source, scale } => {
                &&& pipeline.render_passes@[i].kind is Custom
                &&& name@ == pipeline.render_passes@[i].file.unwrap()@
                &&& scale == pipeline.render_passes@[i].scale
                &&& source@ == shaders[(custom_masks(
                    pipeline,
                    pipeline.mask_passes@.len() as int,
                ).len() + custom_renders(pipeline, i).len()) as int]@
            },
        }),
{
    if 0 <= i < pipeline.mask_passes@.len() {
        lemma_mask_place_counts(pipeline, i as nat);
        assert(is_mask_step(
            config.mask_passes@[i],
            pipeline.mask_passes@[i],
            shaders[pipeline.mask_place(i as nat) as int]@,
        ));
    }
    if 0 <= i < pipeline.render_passes@.len() {
        lemma_render_place_counts(pipeline, i as nat);
        assert(is_render_step(
            config.render_passes@[i],
            pipeline.render_passes@[i],
            shaders[pipeline.render_place(i as nat) as int]@,
        ));
    }
}

/// A custom pass that can be resolved: it names a file, and its scale is a positive
/// number.
pub open spec fn sound(file: Option<String>, scale: F32Bits) -> bool {
    file is Some && 0 < scale.bits <= 0x7f80_0000
}

/// Every custom pass of the pipeline can be resolved, and there is a render pass.
pub open spec fn all_sound(pipeline: ShaderPipeline) -> bool {
    &&& pipeline.render_passes@.len() > 0
    &&& forall|i: int|
        0 <= i < pipeline.mask_passes@.len() && (#[trigger] pipeline.mask_passes@[i]).kind is Custom
            ==> sound(pipeline.mask_passes@[i].file, pipeline.mask_passes@[i].scale)
    &&& forall|i: int|
        0 <= i < pipeline.render_passes@.len() && (
        #[trigger] pipeline.render_passes@[i]).kind is Custom ==> sound(
            pipeline.render_passes@[i].file,
            pipeline.render_passes@[i].scale,
        )
}

/// The number of custom passes of the pipeline.
pub open spec fn custom_count(pipeline: ShaderPipeline) -> nat {
    custom_masks(pipeline, pipeline.mask_passes@.len() as int).len() + custom_renders(
        pipeline,
        pipeline.render_passes@.len() as int,
    ).len()
}

proof fn lemma_sound_mask_faults(pipeline: ShaderPipeline, i: nat, reads: nat)
    requires
        all_sound(pipeline),
        i < pipeline.mask_passes@.len(),
    ensures
        pipeline.mask_fault(i, reads) is None <==> !(pipeline.mask_passes@[i as int].kind is Custom)
            || pipeline.mask_place(i) < reads,
        pipeline.mask_fault(i, reads) matches Some(fault) ==> fault is Unread,
{
    let pass = pipeline.mask_passes@[i as int];
    if pass.kind is Custom {
        assert(sound(pass.file, pass.scale));
    }
}

proof fn lemma_sound_render_faults(pipeline: ShaderPipeline, i: nat, reads: nat)
    requires
        all_sound(pipeline),
        i < pipeline.render_passes@.len(),
    ensures
        pipeline.render_fault(i, reads) is None <==> !(
        pipeline.render_passes@[i as int].kind is Custom) || pipeline.render_place(i) < reads,
        pipeline.render_fault(i, reads) matches Some(fault) ==> fault is Unread,
{
    let pass = pipeline.render_passes@[i as int];
    if pass.kind is Custom {
        assert(sound(pass.file, pass.scale));
    }
}

/// The file of the mask pass with so many custom passes before it is asked for after
/// just as many shaders have been read.
pub proof fn law_mask_shader_is_asked_for_in_turn(pipeline: ShaderPipeline, i: int)
    requires
        all_sound(pipeline),
        0 <= i < pipeline.mask_passes@.len(),
        pipeline.mask_passes@[i].kind is Custom,
    ensures
        pipeline.unread_file(custom_masks(pipeline, i).len()) == pipeline.mask_passes@[i].file,
        pipeline.error(custom_masks(pipeline, i).len()) == Some(
            ResolveError::MaskPass { index: i as usize, fault: PassFault::Unread },
        ),
{
    let reads = custom_masks(pipeline, i).len();
    lemma_mask_place_counts(pipeline, i as nat);
    pipeline.lemma_mask_error_is_first(0, reads);
    assert forall|j: nat| j < i implies pipeline.mask_fault(j, reads) is None by {
        lemma_sound_mask_faults(pipeline, j, reads);
        lemma_mask_place_grows(pipeline, j, i as nat);
    }
    lemma_sound_mask_faults(pipeline, i as nat, reads);
    assert(pipeline.mask_fault(i as nat, reads) is Some);
    assert(pipeline.mask_passes@.len() == pipeline.mask_passes.len());
}

/// The file of the render pass with so many custom passes before it, mask passes
/// among them, is asked for after just as many shaders have been read.
pub proof fn law_render_shader_is_asked_for_in_turn(pipeline: ShaderPipeline, i: int)
    requires
        all_sound(pipeline),
        0 <= i < pipeline.render_passes@.len(),
        pipeline.render_passes@[i].kind is Custom,
    ensures
        ({
            let reads = custom_masks(pipeline, pipeline.mask_passes@.len() as int).len()
                + custom_renders(pipeline, i).len();
            &&& pipeline.unread_file(reads) == pipeline.render_passes@[i].file
            &&& pipeline.error(reads) == Some(
                ResolveError::RenderPass { index: i as usize, fault: PassFault::Unread },
            )
        }),
{
    let masks = pipeline.mask_passes@.len();
    let reads = custom_masks(pipeline, masks as int).len() + custom_renders(pipeline, i).len();
    lemma_mask_place_counts(pipeline, masks);
    lemma_render_place_counts(pipeline, i as nat);
    pipeline.lemma_mask_error_is_first(0, reads);
    pipeline.lemma_render_error_is_first(0, reads);
    assert forall|j: nat| j < masks implies pipeline.mask_fault(j, reads) is None by {
        lemma_sound_mask_faults(pipeline, j, reads);
        lemma_mask_place_grows(pipeline, j, masks);
    }
    assert forall|j: nat| j < i implies pipeline.render_fault(j, reads) is None by {
        lemma_sound_render_faults(pipeline, j, reads);
        lemma_render_place_grows(pipeline, j, i as nat);
    }
    lemma_sound_render_faults(pipeline, i as nat, reads);
    assert(pipeline.render_fault(i as nat, reads) is Some);
    assert(pipeline.render_passes@.len() == pipeline.render_passes.len());
}

/// A pipeline without faults is resolved once as many shaders have been read as it has
/// custom passes, and not before; from then on no file is asked for.
pub proof fn law_as_many_shaders_as_custom_passes(pipeline: ShaderPipeline, reads: nat)
    requires
        all_sound(pipeline),
    ensures
        pipeline.error(reads) is None <==> reads >= custom_count(pipeline),
        pipeline.unread_file(reads) is None <==> reads >= custom_count(pipeline),
{
    let masks = pipeline.mask_passes@.len();
    let renders = pipeline.render_passes@.len();
    lemma_mask_place_counts(pipeline, masks);
    lemma_render_place_counts(pipeline, renders);
    pipeline.lemma_mask_error_is_first(0, reads);
    pipeline.lemma_render_error_is_first(0, reads);
    lemma_first_render_place(pipeline, renders);
    if reads >= custom_count(pipeline) {
        assert forall|j: nat| j < masks implies pipeline.mask_fault(j, reads) is None by {
            lemma_sound_mask_faults(pipeline, j, reads);
            lemma_mask_place_grows(pipeline, j, masks);
        }
        assert forall|j: nat| j < renders implies pipeline.render_fault(j, reads) is None by {
            lemma_sound_render_faults(pipeline, j, reads);
            lemma_render_place_grows(pipeline, j, renders);
        }
    } else {
        if pipeline.error(reads) is None {
            pipeline.lemma_mask_places_read(masks, reads);
            pipeline.lemma_render_places_read(renders, reads);
        } else {
            match pipeline.error(reads) {
                Some(ResolveError::MaskPass { index, fault }) => {
                    lemma_sound_mask_faults(pipeline, index as nat, reads);
                    assert(pipeline.mask_passes@[index as int].kind is Custom);
                },
                Some(ResolveError::RenderPass { index, fault }) => {
                    lemma_sound_render_faults(pipeline, index as nat, reads);
                    assert(pipeline.render_passes@[index as int].kind is Custom);
                },
                _ => {},
            }
        }
    }
}

proof fn lemma_first_render_place(pipeline: ShaderPipeline, i: nat)
    requires
        i <= pipeline.render_passes@.len(),
    ensures
        pipeline.mask_place(pipeline.mask_passes@.len()) <= pipeline.render_place(i),
    decreases i,
{
    if i > 0 {
        lemma_first_render_place(pipeline, (i - 1) as nat);
    }
}

/// The first thing that is wrong with a pipeline is its error: the mask passes come
/// first, in their order, then that there is no render pass, then the render passes.
/// Of one pass the missing file comes first, then a scale that is not a positive
/// number, then a shader that was not read.
pub proof fn law_first_fault_is_the_error(pipeline: ShaderPipeline, reads: nat, i: int)
    ensures
        (match pipeline.error(reads) {
            None => {
                &&& pipeline.render_passes@.len() > 0
                &&& 0 <= i < pipeline.mask_passes@.len() && pipeline.mask_passes@[i].kind is Custom
                    ==> sound(pipeline.mask_passes@[i].file, pipeline.mask_passes@[i].scale)
                    && custom_masks(pipeline, i).len() < reads
                &&& 0 <= i < pipeline.render_passes@.len()
                    && pipeline.render_passes@[i].kind is Custom ==> sound(
                    pipeline.render_passes@[i].file,
                    pipeline.render_passes@[i].scale,
                ) && custom_masks(pipeline, pipeline.mask_passes@.len() as int).len()
                    + custom_renders(pipeline, i).len() < reads
            },
            Some(ResolveError::MaskPass { index, fault }) => {
                let pass = pipeline.mask_passes@[index as int];
                &&& index < pipeline.mask_passes@.len()
                &&& pass.kind is Custom
                &&& fault is MissingFile <==> pass.file is None
                &&& fault is ScaleNotPositive <==> pass.file is Some && !(0 < pass.scale.bits
                    <= 0x7f80_0000)
                &&& fault is Unread ==> reads <= custom_masks(pipeline, index as int).len()
                &&& 0 <= i < index && pipeline.mask_passes@[i].kind is Custom ==> sound(
                    pipeline.mask_passes@[i].file,
                    pipeline.mask_passes@[i].scale,
                ) && custom_masks(pipeline, i).len() < reads
            },
            Some(ResolveError::NoRenderPasses) => {
                &&& pipeline.render_passes@.len() == 0
                &&& 0 <= i < pipeline.mask_passes@.len() && pipeline.mask_passes@[i].kind is Custom
                    ==> sound(pipeline.mask_passes@[i].file, pipeline.mask_passes@[i].scale)
                    && custom_masks(pipeline, i).len() < reads
            },
            Some(ResolveError::RenderPass { index, fault }) => {
                let pass = pipeline.render_passes@[index as int];
                &&& index < pipeline.render_passes@.len()
                &&& pass.kind is Custom
                &&& fault is MissingFile <==> pass.file is None
                &&& fault is ScaleNotPositive <==> pass.file is Some && !(0 < pass.scale.bits
                    <= 0x7f80_0000)
                &&& fault is Unread ==> reads <= custom_masks(
                    pipeline,
                    pipeline.mask_passes@.len() as int,
                ).len() + custom_renders(pipeline, index as int).len()
                &&& 0 <= i < pipeline.mask_passes@.len() && pipeline.mask_passes@[i].kind is Custom
                    ==> sound(pipeline.mask_passes@[i].file, pipeline.mask_passes@[i].scale)
                    && custom_masks(pipeline, i).len() < reads
                &&& 0 <= i < index && pipeline.render_passes@[i].kind is Custom ==> sound(
                    pipeline.render_passes@[i].file,
                    pipeline.render_passes@[i].scale,
                ) && custom_masks(pipeline, pipeline.mask_passes@.len() as int).len()
                    + custom_renders(pipeline, i).len() < reads
            },
        }),
{
    pipeline.lemma_mask_error_is_first(0, reads);
    pipeline.lemma_render_error_is_first(0, reads);
    if 0 <= i < pipeline.mask_passes@.len() {
        lemma_mask_place_counts(pipeline, i as nat);
        assert(pipeline.mask_fault(i as nat, reads) is None || pipeline.mask_fault(
            i as nat,
            reads,
        ) is Some);
    }
    if 0 <= i < pipeline.render_passes@.len() {
        lemma_render_place_counts(pipeline, i as nat);
        assert(pipeline.render_fault(i as nat, reads) is None || pipeline.render_fault(
            i as nat,
            reads,
        ) is Some);
    }
    match pipeline.error(reads) {
        Some(ResolveError::MaskPass { index, fault }) => {
            lemma_mask_place_counts(pipeline, index as nat);
        },
        Some(ResolveError::RenderPass { index, fault }) => {
            lemma_render_place_counts(pipeline, index as nat);
        },
        _ => {},
    }
}

/// Two pipelines that feed the same to the hasher, write by write, have the same
/// passes: of the same kinds, with the same sources and scales of their custom passes
/// and the same passes and offsets of their Kawase blurs. Only names can differ.
pub proof fn law_same_chunks_same_passes(a: PipelineConfig, b: PipelineConfig, i: int)
    requires
        a.chunks() == b.chunks(),
    ensures
        a.mask_passes@.len() == b.mask_passes@.len(),
        a.render_passes@.len() == b.render_passes@.len(),
        0 <= i < a.mask_passes@.len() ==> (match a.mask_passes@[i] {
            MaskPassStep::WindowVectors => b.mask_passes@[i] is WindowVectors,
            MaskPassStep::RegionVectors => b.mask_passes@[i] is RegionVectors,
            MaskPassStep::Custom { source, scale, .. } => b.mask_passes@[i] matches
                MaskPassStep::Custom { source: other, scale: other_scale, .. } && source@ == other@
                && scale.bits == other_scale.bits,
        }),
        0 <= i < a.render_passes@.len() ==> (match a.render_passes@[i] {
            RenderPassStep::DualKawaseBlur { passes, offset } => b.render_passes@[i] matches
                RenderPassStep::DualKawaseBlur { passes: other, offset: other_offset } && passes
                == other && offset == other_offset,
            RenderPassStep::Custom { source, scale, .. } => b.render_passes@[i] matches
                RenderPassStep::Custom { source: other, scale: other_scale, .. } && source@ == other@
                && scale.bits == other_scale.bits,
        }),
{
    law_pipelines_are_told_apart(a, b);
    if 0 <= i < a.mask_passes@.len() {
        assert(same_mask_shader(a.mask_passes@[i], b.mask_passes@[i]));
    }
    if 0 <= i < a.render_passes@.len() {
        assert(same_render_shader(a.render_passes@[i], b.render_passes@[i]));
    }
}

/// A file is asked for exactly when an unread shader is the first thing that keeps the
/// pipeline from being resolved, and it is the file of that pass.
pub proof fn law_unread_pass_is_asked_for(pipeline: ShaderPipeline, reads: nat)
    ensures
        (match pipeline.error(reads) {
            Some(ResolveError::MaskPass { index, fault }) if fault is Unread => {
                pipeline.unread_file(reads) == pipeline.mask_passes@[index as int].file
            },
            Some(ResolveError::RenderPass { index, fault }) if fault is Unread => {
                pipeline.unread_file(reads) == pipeline.render_passes@[index as int].file
            },
            _ => pipeline.unread_file(reads) is None,
        }),
{
}

} // verus!
