//! Compiled programs of a blur.

use vstd::prelude::*;

use crate::custom_blur::{MaskPassStep, PipelineConfig, RenderPassStep};

verus! {

/// A step of the Kawase blur.
#[derive(Clone, Copy, Debug, PartialEq, Eq, Structural)]
pub enum KawaseShader {
    Down,
    Up,
}

/// The programs of the Kawase blur.
#[derive(Clone, Copy, Debug, PartialEq, Eq, Structural)]
pub struct BlurProgram {
    pub down: u32,
    pub up: u32,
}

impl BlurProgram {
    /// Put the compiled programs together. A program that did not compile is the
    /// error, the one for going down first.
    pub fn compile(down: Option<u32>, up: Option<u32>) -> (result: Result<Self, KawaseShader>)
        ensures
            result == (match (down, up) {
                (None, _) => Err(KawaseShader::Down),
                (Some(_), None) => Err(KawaseShader::Up),
                (Some(down), Some(up)) => Ok(BlurProgram { down, up }),
            }),
    {
        match (down, up) {
            (None, _) => Err(KawaseShader::Down),
            (Some(_), None) => Err(KawaseShader::Up),
            (Some(down), Some(up)) => Ok(BlurProgram { down, up }),
        }
    }

    /// Give up the programs: the result lists those to delete.
    pub fn destroy(self) -> (programs: Vec<u32>)
        ensures
            programs@ == seq![self.down, self.up],
    {
        let mut programs: Vec<u32> = Vec::new();
        programs.push(self.down);
        programs.push(self.up);
        assert(programs@ =~= seq![self.down, self.up]);
        programs
    }
}

/// A pass of a shader pipeline whose program is missing.
#[derive(Clone, Copy, Debug, PartialEq, Eq, Structural)]
pub enum MissingProgram {
    MaskPass { index: usize },
    RenderPass { index: usize },
}

/// A compiled shader pipeline: one program for each custom pass.
#[derive(Debug)]
pub struct CustomBlurProgram {
    /// Says which pipeline it is: no two have the same.
    pub id: u64,
    pub mask_passes: Vec<MaskPassStep>,
    pub mask_programs: Vec<Option<u32>>,
    pub render_passes: Vec<RenderPassStep>,
    pub render_programs: Vec<Option<u32>>,
}

/// The number of custom passes among the first mask passes.
pub open spec fn mask_slot(steps: Seq<MaskPassStep>, i: nat) -> nat
    decreases i,
{
    if i == 0 {
        0
    } else {
        mask_slot(steps, (i - 1) as nat) + if steps[i - 1] is Custom {
            1nat
        } else {
            0
        }
    }
}

/// The number of custom passes among all mask passes and the first render passes.
pub open spec fn render_slot(
    masks: Seq<MaskPassStep>,
    steps: Seq<RenderPassStep>,
    i: nat,
) -> nat
    decreases i,
{
    if i == 0 {
        mask_slot(masks, masks.len())
    } else {
        render_slot(masks, steps, (i - 1) as nat) + if steps[i - 1] is Custom {
            1nat
        } else {
            0
        }
    }
}

/// The pass that is to be compiled next, after so many programs: the custom pass
/// with just as many custom passes before it, if there is one.
pub open spec fn compiled_next(
    config: PipelineConfig,
    done: nat,
    next: Option<MissingProgram>,
) -> bool {
    let masks = config.mask_passes@;
    let renders = config.render_passes@;
    match next {
        Some(MissingProgram::MaskPass { index }) => {
            &&& index < masks.len()
            &&& masks[index as int] is Custom
            &&& mask_slot(masks, index as nat) == done
        },
        Some(MissingProgram::RenderPass { index }) => {
            &&& index < renders.len()
            &&& renders[index as int] is Custom
            &&& render_slot(masks, renders, index as nat) == done
        },
        None => render_slot(masks, renders, renders.len()) <= done,
    }
}

/// The program of a mask pass, if it is a custom one.
pub open spec fn mask_program(steps: Seq<MaskPassStep>, programs: Seq<u32>, i: int) -> Option<u32> {
    if steps[i] is Custom {
        Some(programs[mask_slot(steps, i as nat) as int])
    } else {
        None
    }
}

/// The program of a render pass, if it is a custom one.
pub open spec fn render_program(
    masks: Seq<MaskPassStep>,
    steps: Seq<RenderPassStep>,
    programs: Seq<u32>,
    i: int,
) -> Option<u32> {
    if steps[i] is Custom {
        Some(programs[render_slot(masks, steps, i as nat) as int])
    } else {
        None
    }
}

/// Find the pass that is to be compiled next.
fn find_next(config: &PipelineConfig, done: usize) -> (next: Option<MissingProgram>)
    ensures
        compiled_next(*config, done as nat, next),
{
    let ghost masks = config.mask_passes@;
    let ghost renders = config.render_passes@;
    let mut left: usize = done;
    let mut i: usize = 0;
    while i < config.mask_passes.len()
        invariant
            i <= masks.len(),
            masks == config.mask_passes@,
            mask_slot(masks, i as nat) + left == done,
        decreases masks.len() - i,
    {
        if let MaskPassStep::Custom { .. } = &config.mask_passes[i] {
            if left == 0 {
                return Some(MissingProgram::MaskPass { index: i });
            }
            left = left - 1;
        }
        i = i + 1;
    }
    let mut j: usize = 0;
    while j < config.render_passes.len()
        invariant
            j <= renders.len(),
            masks == config.mask_passes@,
            renders == config.render_passes@,
            render_slot(masks, renders, j as nat) + left == done,
        decreases renders.len() - j,
    {
        if let RenderPassStep::Custom { .. } = &config.render_passes[j] {
            if left == 0 {
                return Some(MissingProgram::RenderPass { index: j });
            }
            left = left - 1;
        }
        j = j + 1;
    }
    None
}

/// The source of the custom pass that is to be compiled next.
pub fn next_shader(config: &PipelineConfig, done: usize) -> (source: Option<&String>)
    ensures
        (match source {
            Some(s) => exists|next: MissingProgram| #[trigger]
                compiled_next(*config, done as nat, Some(next)) && match next {
                    MissingProgram::MaskPass {
                        index,
                    } => config.mask_passes@[index as int]->Custom_source == *s,
                    MissingProgram::RenderPass {
                        index,
                    } => config.render_passes@[index as int]->Custom_source == *s,
                },
            None => compiled_next(*config, done as nat, None),
        }),
{
    match find_next(config, done) {
        Some(MissingProgram::MaskPass { index }) => match &config.mask_passes[index] {
            MaskPassStep::Custom { source, .. } => Some(source),
            _ => None,
        },
        Some(MissingProgram::RenderPass { index }) => match &config.render_passes[index] {
            RenderPassStep::Custom { source, .. } => Some(source),
            _ => None,
        },
        None => None,
    }
}

impl CustomBlurProgram {
    /// Exactly the custom passes have a program.
    pub open spec fn wf(&self) -> bool {
        &&& self.mask_programs@.len() == self.mask_passes@.len()
        &&& self.render_programs@.len() == self.render_passes@.len()
        &&& forall|i: int|
            0 <= i < self.mask_passes@.len() ==> ((#[trigger] self.mask_programs@[i]) is Some
                <==> self.mask_passes@[i] is Custom)
        &&& forall|i: int|
            0 <= i < self.render_passes@.len() ==> ((#[trigger] self.render_programs@[i]) is Some
                <==> self.render_passes@[i] is Custom)
    }

    /// Put a pipeline together from the programs of its custom passes, in their
    /// order. The first pass without a program is the error.
    pub fn compile(id: u64, config: &PipelineConfig, programs: &Vec<u32>) -> (result: Result<
        Self,
        MissingProgram,
    >)
        ensures
            (match result {
                Err(missing) => compiled_next(*config, programs@.len(), Some(missing)),
                Ok(program) => {
                    &&& compiled_next(*config, programs@.len(), None)
                    &&& program.wf()
                    &&& program.id == id
                    &&& program.mask_passes@ == config.mask_passes@
                    &&& program.render_passes@ == config.render_passes@
                    &&& forall|i: int|
                        0 <= i < program.mask_passes@.len() ==> (
                        #[trigger] program.mask_programs@[i]) == mask_program(
                            config.mask_passes@,
                            programs@,
                            i,
                        )
                    &&& forall|i: int|
                        0 <= i < program.render_passes@.len() ==> (
                        #[trigger] program.render_programs@[i]) == render_program(
                            config.mask_passes@,
                            config.render_passes@,
                            programs@,
                            i,
                        )
                },
            }),
    {
        match find_next(config, programs.len()) {
            Some(missing) => {
                return Err(missing);
            },
            None => {},
        }
        let ghost masks = config.mask_passes@;
        let ghost renders = config.render_passes@;
        let mut next: usize = 0;
        let mut mask_passes: Vec<MaskPassStep> = Vec::new();
        let mut mask_programs: Vec<Option<u32>> = Vec::new();
        proof {
            lemma_render_slot_grows(masks, renders, 0, renders.len());
        }
        while mask_passes.len() < config.mask_passes.len()
            invariant
                masks == config.mask_passes@,
                mask_passes@.len() <= masks.len(),
                mask_passes@ == masks.take(mask_passes@.len() as int),
                mask_programs@.len() == mask_passes@.len(),
                mask_slot(masks, masks.len()) <= programs@.len(),
                next == mask_slot(masks, mask_passes@.len()),
                forall|i: int|
                    0 <= i < mask_programs@.len() ==> (#[trigger] mask_programs@[i])
                        == mask_program(masks, programs@, i),
            decreases masks.len() - mask_passes@.len(),
        {
            let i: usize = mask_passes.len();
            let program: Option<u32> = match &config.mask_passes[i] {
                MaskPassStep::Custom { .. } => {
                    proof {
                        lemma_mask_slot_grows(masks, (i + 1) as nat, masks.len());
                    }
                    let slot: usize = next;
                    assert(slot < programs.len());
                    next = next + 1;
                    Some(programs[slot])
                },
                _ => None,
            };
            mask_passes.push(config.mask_passes[i].clone());
            mask_programs.push(program);
        }
        let mut render_passes: Vec<RenderPassStep> = Vec::new();
        let mut render_programs: Vec<Option<u32>> = Vec::new();
        while render_passes.len() < config.render_passes.len()
            invariant
                renders == config.render_passes@,
                render_passes@.len() <= renders.len(),
                render_passes@ == renders.take(render_passes@.len() as int),
                render_programs@.len() == render_passes@.len(),
                render_slot(masks, renders, renders.len()) <= programs@.len(),
                next == render_slot(masks, renders, render_passes@.len()),
                forall|i: int|
                    0 <= i < render_programs@.len() ==> (#[trigger] render_programs@[i])
                        == render_program(masks, renders, programs@, i),
            decreases renders.len() - render_passes@.len(),
        {
            let i: usize = render_passes.len();
            let program: Option<u32> = match &config.render_passes[i] {
                RenderPassStep::Custom { .. } => {
                    proof {
                        lemma_render_slot_grows(masks, renders, (i + 1) as nat, renders.len());
                    }
                    let slot: usize = next;
                    assert(slot < programs.len());
                    next = next + 1;
                    Some(programs[slot])
                },
                _ => None,
            };
            render_passes.push(config.render_passes[i].clone());
            render_programs.push(program);
        }
        assert(mask_passes@ =~= masks);
        assert(render_passes@ =~= renders);
        Ok(CustomBlurProgram { id, mask_passes, mask_programs, render_passes, render_programs })
    }

    /// Give up the programs: the result lists those to delete, of the mask passes
    /// first.
    pub fn destroy(self) -> (programs: Vec<u32>)
        ensures
            programs@ == present(self.mask_programs@) + present(self.render_programs@),
    {
        let mut programs: Vec<u32> = Vec::new();
        push_present(&mut programs, &self.mask_programs);
        push_present(&mut programs, &self.render_programs);
        assert(programs@ =~= present(self.mask_programs@) + present(self.render_programs@));
        programs
    }
}

proof fn lemma_mask_slot_grows(steps: Seq<MaskPassStep>, i: nat, j: nat)
    requires
        i <= j,
    ensures
        mask_slot(steps, i) <= mask_slot(steps, j),
    decreases j,
{
    if i < j {
        lemma_mask_slot_grows(steps, i, (j - 1) as nat);
    }
}

proof fn lemma_render_slot_grows(
    masks: Seq<MaskPassStep>,
    steps: Seq<RenderPassStep>,
    i: nat,
    j: nat,
)
    requires
        i <= j,
    ensures
        render_slot(masks, steps, i) <= render_slot(masks, steps, j),
    decreases j,
{
    if i < j {
        lemma_render_slot_grows(masks, steps, i, (j - 1) as nat);
    }
}

/// The values that are there, in order.
pub open spec fn present(values: Seq<Option<u32>>) -> Seq<u32>
    decreases values.len(),
{
    if values.len() == 0 {
        seq![]
    } else {
        match values.last() {
            Some(v) => present(values.drop_last()).push(v),
            None => present(values.drop_last()),
        }
    }
}

proof fn lemma_present_masks(
    steps: Seq<MaskPassStep>,
    slots: Seq<Option<u32>>,
    programs: Seq<u32>,
    i: nat,
)
    requires
        i <= steps.len() == slots.len(),
        mask_slot(steps, steps.len()) <= programs.len(),
        forall|k: int|
            0 <= k < slots.len() ==> (#[trigger] slots[k]) == mask_program(steps, programs, k),
    ensures
        present(slots.take(i as int)) == programs.take(mask_slot(steps, i) as int),
    decreases i,
{
    lemma_mask_slot_grows(steps, i, steps.len());
    if i > 0 {
        lemma_present_masks(steps, slots, programs, (i - 1) as nat);
        assert(slots.take(i as int).drop_last() =~= slots.take(i - 1));
        assert(slots[i - 1] == mask_program(steps, programs, i - 1));
    }
    assert(present(slots.take(i as int)) =~= programs.take(mask_slot(steps, i) as int));
}

proof fn lemma_present_renders(
    masks: Seq<MaskPassStep>,
    steps: Seq<RenderPassStep>,
    slots: Seq<Option<u32>>,
    programs: Seq<u32>,
    i: nat,
)
    requires
        i <= steps.len() == slots.len(),
        render_slot(masks, steps, steps.len()) <= programs.len(),
        forall|k: int|
            0 <= k < slots.len() ==> (#[trigger] slots[k]) == render_program(
                masks,
                steps,
                programs,
                k,
            ),
    ensures
        present(slots.take(i as int)) == programs.subrange(
            mask_slot(masks, masks.len()) as int,
            render_slot(masks, steps, i) as int,
        ),
    decreases i,
{
    lemma_render_slot_grows(masks, steps, i, steps.len());
    lemma_render_slot_grows(masks, steps, 0, i);
    if i > 0 {
        lemma_present_renders(masks, steps, slots, programs, (i - 1) as nat);
        lemma_render_slot_grows(masks, steps, 0, (i - 1) as nat);
        assert(slots.take(i as int).drop_last() =~= slots.take(i - 1));
        assert(slots[i - 1] == render_program(masks, steps, programs, i - 1));
    }
    assert(present(slots.take(i as int)) =~= programs.subrange(
        mask_slot(masks, masks.len()) as int,
        render_slot(masks, steps, i) as int,
    ));
}

/// A pipeline deletes each of the programs that it was put together from, once
/// and in their order.
pub proof fn law_destroy_lists_what_was_compiled(program: CustomBlurProgram, programs: Seq<u32>)
    requires
        program.wf(),
        render_slot(program.mask_passes@, program.render_passes@, program.render_passes@.len())
            == programs.len(),
        forall|i: int|
            0 <= i < program.mask_passes@.len() ==> (#[trigger] program.mask_programs@[i])
                == mask_program(program.mask_passes@, programs, i),
        forall|i: int|
            0 <= i < program.render_passes@.len() ==> (#[trigger] program.render_programs@[i])
                == render_program(program.mask_passes@, program.render_passes@, programs, i),
    ensures
        present(program.mask_programs@) + present(program.render_programs@) == programs,
{
    let masks = program.mask_passes@;
    let renders = program.render_passes@;
    lemma_render_slot_grows(masks, renders, 0, renders.len());
    lemma_present_masks(masks, program.mask_programs@, programs, masks.len());
    lemma_present_renders(masks, renders, program.render_programs@, programs, renders.len());
    assert(program.mask_programs@.take(masks.len() as int) =~= program.mask_programs@);
    assert(program.render_programs@.take(renders.len() as int) =~= program.render_programs@);
    assert(present(program.mask_programs@) + present(program.render_programs@) =~= programs);
}

fn push_present(out: &mut Vec<u32>, values: &Vec<Option<u32>>)
    ensures
        final(out)@ == old(out)@ + present(values@),
{
    let mut i: usize = 0;
    assert(out@ =~= old(out)@ + present(values@.take(0)));
    while i < values.len()
        invariant
            i <= values@.len(),
            out@ == old(out)@ + present(values@.take(i as int)),
        decreases values@.len() - i,
    {
        assert(values@.take(i + 1).drop_last() =~= values@.take(i as int));
        if let Some(v) = values[i] {
            out.push(v);
        }
        assert(out@ =~= old(out)@ + present(values@.take(i + 1)));
        i = i + 1;
    }
    assert(values@.take(i as int) =~= values@);
}

// ---------------------------------------------------------------------------
// Each custom pass has its own program
// ---------------------------------------------------------------------------

/// The custom passes among the first mask passes.
pub open spec fn custom_mask_steps(steps: Seq<MaskPassStep>, i: int) -> Seq<MaskPassStep> {
    steps.take(i).filter(|step: MaskPassStep| step is Custom)
}

/// The custom passes among the first render passes.
pub open spec fn custom_render_steps(steps: Seq<RenderPassStep>, i: int) -> Seq<RenderPassStep> {
    steps.take(i).filter(|step: RenderPassStep| step is Custom)
}

proof fn lemma_mask_slot_counts(steps: Seq<MaskPassStep>, i: nat)
    requires
        i <= steps.len(),
    ensures
        mask_slot(steps, i) == custom_mask_steps(steps, i as int).len(),
    decreases i,
{
    reveal(Seq::filter);
    if i > 0 {
        lemma_mask_slot_counts(steps, (i - 1) as nat);
        assert(steps.take(i as int).drop_last() =~= steps.take(i - 1));
        assert(steps.take(i as int).last() == steps[i - 1]);
    } else {
        assert(steps.take(0).len() == 0);
    }
}

proof fn lemma_render_slot_counts(masks: Seq<MaskPassStep>, steps: Seq<RenderPassStep>, i: nat)
    requires
        i <= steps.len(),
    ensures
        render_slot(masks, steps, i) == custom_mask_steps(masks, masks.len() as int).len()
            + custom_render_steps(steps, i as int).len(),
    decreases i,
{
    reveal(Seq::filter);
    if i > 0 {
        lemma_render_slot_counts(masks, steps, (i - 1) as nat);
        assert(steps.take(i as int).drop_last() =~= steps.take(i - 1));
        assert(steps.take(i as int).last() == steps[i - 1]);
    } else {
        lemma_mask_slot_counts(masks, masks.len());
        assert(steps.take(0).len() == 0);
    }
}

/// The program of a pass: a custom pass has the program whose place is the number of
/// custom passes that come before it, the mask passes first, and any other pass has
/// none. So no two passes share a program.
pub proof fn law_passes_have_their_own_programs(
    masks: Seq<MaskPassStep>,
    renders: Seq<RenderPassStep>,
    programs: Seq<u32>,
    i: int,
)
    ensures
        0 <= i < masks.len() ==> mask_program(masks, programs, i) == (if masks[i] is Custom {
            Some(programs[custom_mask_steps(masks, i).len() as int])
        } else {
            None
        }),
        0 <= i < renders.len() ==> render_program(masks, renders, programs, i) == (
        if renders[i] is Custom {
            Some(
                programs[(custom_mask_steps(masks, masks.len() as int).len() + custom_render_steps(
                    renders,
                    i,
                ).len()) as int],
            )
        } else {
            None
        }),
{
    if 0 <= i < masks.len() {
        lemma_mask_slot_counts(masks, i as nat);
    }
    if 0 <= i < renders.len() {
        lemma_render_slot_counts(masks, renders, i as nat);
    }
}

/// The pass that is compiled next, after so many programs, is the custom pass with just
/// as many custom passes before it; none is left once there are as many programs as
/// custom passes, and not before.
pub proof fn law_passes_are_compiled_in_order(
    config: PipelineConfig,
    done: nat,
    next: Option<MissingProgram>,
)
    requires
        compiled_next(config, done, next),
    ensures
        ({
            let masks = config.mask_passes@;
            let renders = config.render_passes@;
            let first = custom_mask_steps(masks, masks.len() as int).len();
            match next {
                Some(MissingProgram::MaskPass { index }) => {
                    &&& index < masks.len() && masks[index as int] is Custom
                    &&& custom_mask_steps(masks, index as int).len() == done
                },
                Some(MissingProgram::RenderPass { index }) => {
                    &&& index < renders.len() && renders[index as int] is Custom
                    &&& first + custom_render_steps(renders, index as int).len() == done
                },
                None => first + custom_render_steps(renders, renders.len() as int).len() <= done,
            }
        }),
        next is Some ==> done < custom_mask_steps(
            config.mask_passes@,
            config.mask_passes@.len() as int,
        ).len() + custom_render_steps(
            config.render_passes@,
            config.render_passes@.len() as int,
        ).len(),
{
    let masks = config.mask_passes@;
    let renders = config.render_passes@;
    lemma_mask_slot_counts(masks, masks.len());
    lemma_render_slot_counts(masks, renders, renders.len());
    lemma_render_slot_grows(masks, renders, 0, renders.len());
    match next {
        Some(MissingProgram::MaskPass { index }) => {
            lemma_mask_slot_counts(masks, index as nat);
            lemma_mask_slot_grows(masks, (index + 1) as nat, masks.len());
        },
        Some(MissingProgram::RenderPass { index }) => {
            lemma_render_slot_counts(masks, renders, index as nat);
            lemma_render_slot_grows(masks, renders, (index + 1) as nat, renders.len());
        },
        None => {},
    }
}

/// Of the programs of the passes, those that are there are listed for deletion, in
/// their order.
pub proof fn law_present_programs_are_listed(values: Seq<Option<u32>>)
    ensures
        present(values) == values.filter(|v: Option<u32>| v is Some).map_values(
            |v: Option<u32>| v.unwrap(),
        ),
    decreases values.len(),
{
    reveal(Seq::filter);
    let there = |v: Option<u32>| v is Some;
    let value = |v: Option<u32>| v.unwrap();
    if values.len() > 0 {
        law_present_programs_are_listed(values.drop_last());
        let front = values.drop_last().filter(there);
        if values.last() is Some {
            assert(front.push(values.last()).map_values(value) =~= front.map_values(value).push(
                values.last().unwrap(),
            ));
        }
    } else {
        assert(values.filter(there).map_values(value) =~= seq![]);
    }
}

} // verus!
