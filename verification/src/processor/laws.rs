//! What holds of the pipeline over the stages of a chain and over more
//! than one cycle.

use super::instruction::Instruction;
use super::pipeline::{
    lemma_load_keeps_depth, lemma_work_keeps_depth, process_model, Stage, StageResult, StageType,
};
use super::registers::{RegFile, Register};
use super::stages::{lemma_fetch_reads_at_pc, retires_taken_branch};
use crate::memory::Memory;
use vstd::prelude::*;

verus! {

/// The scoreboard discipline. A register goes from free to reserved in
/// Decode only, and then it is the destination of the instruction that
/// Decode passes on; it goes from reserved to free in Writeback only. Fetch,
/// Execute and the Memory stage leave the scoreboard as it is.
pub proof fn lemma_scoreboard_discipline<M: Memory>(
    stage_type: StageType,
    mem: M::Model,
    regs: RegFile,
    instr: Instruction,
    reg: Register,
)
    requires
        regs.wf(),
    ensures
        ({
            let (_, after, decoded, result) = process_model::<M>(stage_type, mem, regs, instr);
            &&& !regs.busy(reg) && after.busy(reg) ==> stage_type == StageType::Decode && result
                == StageResult::DONE && decoded.dest == reg
            &&& regs.busy(reg) && !after.busy(reg) ==> stage_type == StageType::Writeback
        }),
{
}

/// No stage takes the kill mark off an instruction or puts one on, none but
/// Fetch marks an instruction as read, and Decode, Execute and the Memory
/// stage leave the values of the registers alone.
pub proof fn lemma_process_marks<M: Memory>(
    stage_type: StageType,
    mem: M::Model,
    regs: RegFile,
    instr: Instruction,
)
    ensures
        process_model::<M>(stage_type, mem, regs, instr).2.meta.squashed == instr.meta.squashed,
        stage_type != StageType::Fetch ==> process_model::<M>(
            stage_type,
            mem,
            regs,
            instr,
        ).2.meta.initialized == instr.meta.initialized,
        stage_type != StageType::Fetch && stage_type != StageType::Writeback ==> process_model::<
            M,
        >(stage_type, mem, regs, instr).1.values == regs.values,
{
}

/// A killed instruction has no effect. A stage other than the last does not
/// work on it at all, and Writeback leaves the memory and the register file
/// as they are.
pub proof fn lemma_killed_has_no_effect<M: Memory>(stage: Stage, mem: M::Model, regs: RegFile)
    requires
        stage.instruction matches Some(instr) && instr.meta.squashed,
        !stage.is_head || stage.stage_type == StageType::Writeback,
    ensures
        stage.worked::<M>(mem, regs).1 == mem,
        stage.worked::<M>(mem, regs).2 == regs,
{
}

/// After a squash every instruction in the chain that Fetch has read is
/// killed.
pub proof fn lemma_squash_kills(stage: Stage)
    ensures
        stage.squashed().all_killed(),
    decreases stage,
{
    if let Some(prev) = stage.prev_stage {
        lemma_squash_kills(*prev);
    }
}

/// A squash leaves a chain killed that was.
pub proof fn lemma_killed_stays(stage: Stage)
    requires
        stage.all_killed(),
    ensures
        stage.squashed().all_killed(),
        stage.all_killed_or_new(),
    decreases stage,
{
    if let Some(prev) = stage.prev_stage {
        lemma_killed_stays(*prev);
    }
}

/// A cycle of a chain in which everything read was killed brings nothing
/// back to life: whatever is then in the chain, read and not killed, is in a
/// Fetch stage, which has read it in this cycle.
pub proof fn lemma_cycle_after_squash<M: Memory>(stage: Stage, mem: M::Model, regs: RegFile)
    requires
        stage.all_killed(),
    ensures
        stage.cycled::<M>(mem, regs).0.all_killed_or_new(),
    decreases stage.depth(),
{
    lemma_killed_stays(stage);
    if stage.status != StageResult::HALT {
        reveal_with_fuel(Stage::all_killed, 2);
        let loaded = stage.loaded();
        assert(loaded.all_killed());
        lemma_load_keeps_depth(stage);
        lemma_work_keeps_depth::<M>(loaded, mem, regs);
        let (worked, mem1, regs1) = loaded.worked::<M>(mem, regs);
        if let Some(held) = loaded.instruction {
            lemma_process_marks::<M>(loaded.stage_type, mem, regs, held);
            let status = if held.meta.squashed {
                StageResult::DONE
            } else {
                loaded.status
            };
            let (mem2, regs2, instr, status) = if status != StageResult::DONE || loaded.is_head {
                process_model::<M>(loaded.stage_type, mem, regs, held)
            } else {
                (mem, regs, held, status)
            };
            let processed = Stage { status, instruction: Some(instr), ..loaded };
            lemma_squash_kills(processed);
        }
        if let Some(prev) = worked.prev_stage {
            assert(prev.all_killed());
            lemma_cycle_after_squash::<M>(*prev, mem1, regs1);
        }
    }
}

/// The cycle in which a taken branch retires.
///
/// Let the last stage hold, after its load step, a branch that was taken
/// and not killed, with the program counter as its destination. Its own
/// work of this cycle puts the target into the program counter, releases
/// every register and every memory level, and kills every instruction in
/// the chain that Fetch has read. At the end of the cycle the branch is
/// gone, and whatever in the chain is read and not killed is in a Fetch
/// stage, which has read it in this cycle.
pub proof fn lemma_branch_retires<M: Memory>(stage: Stage, mem: M::Model, regs: RegFile)
    requires
        regs.wf(),
        stage.is_head,
        stage.stage_type == StageType::Writeback,
        stage.status != StageResult::HALT,
        stage.loaded().instruction matches Some(branch) && retires_taken_branch(
            branch,
        ) && branch.dest == Register::PC,
    ensures
        ({
            let branch = stage.loaded().instruction->0;
            let (worked, mem1, regs1) = stage.loaded().worked::<M>(mem, regs);
            let (after, mem2, regs2, running) = stage.cycled::<M>(mem, regs);
            &&& regs1.get(Register::PC) == branch.meta.result
            &&& regs1.in_use == RegFile::zero().in_use
            &&& mem1 == M::reset_state_model(mem)
            &&& worked.all_killed()
            &&& running
            &&& after.instruction is None
            &&& after.all_killed_or_new()
        }),
{
    let loaded = stage.loaded();
    let branch = loaded.instruction->0;
    let (mem0, regs0, instr, status) = process_model::<M>(loaded.stage_type, mem, regs, branch);
    let processed = Stage { status, instruction: Some(instr), ..loaded };
    lemma_squash_kills(processed);
    lemma_load_keeps_depth(stage);
    lemma_work_keeps_depth::<M>(loaded, mem, regs);
    let (worked, mem1, regs1) = loaded.worked::<M>(mem, regs);
    assert(worked.all_killed());
    if let Some(prev) = worked.prev_stage {
        lemma_cycle_after_squash::<M>(*prev, mem1, regs1);
    }
}

/// Whether a chain feeds Writeback depends on the kinds of its stages
/// only, which clearing keeps.
pub proof fn lemma_shape_feeds_writeback(stage: Stage)
    ensures
        stage.cleared().feeds_writeback() == stage.feeds_writeback(),
    decreases stage,
{
    if let Some(prev) = stage.prev_stage {
        lemma_shape_feeds_writeback(*prev);
    }
}

/// Killing instructions does not change the kinds of the stages.
pub proof fn lemma_squash_keeps_feeding(stage: Stage)
    ensures
        stage.squashed().feeds_writeback() == stage.feeds_writeback(),
    decreases stage,
{
    if let Some(prev) = stage.prev_stage {
        lemma_squash_keeps_feeding(*prev);
    }
}

/// Killing instructions keeps placeholders where they belong.
pub proof fn lemma_squash_keeps_settled(stage: Stage)
    requires
        stage.settled(),
    ensures
        stage.squashed().settled(),
        stage.squashed().hands_on_read() == stage.hands_on_read(),
        stage.squashed().idle_first() == stage.idle_first(),
        stage.squashed().is_head == stage.is_head,
    decreases stage,
{
    if let Some(prev) = stage.prev_stage {
        lemma_squash_keeps_settled(*prev);
    }
}

/// The load step keeps placeholders where they belong, and leaves the
/// stage before ready for its own cycle.
pub proof fn lemma_load_keeps_settled(stage: Stage)
    requires
        stage.settled(),
        stage.hands_on_read(),
        !stage.idle_first(),
    ensures
        stage.loaded().settled(),
        stage.loaded().hands_on_read(),
        stage.loaded().prev_stage matches Some(prev) ==> !prev.idle_first(),
{
    reveal_with_fuel(Stage::settled, 2);
}

/// A stage's own work keeps placeholders where they belong.
pub proof fn lemma_work_keeps_settled<M: Memory>(stage: Stage, mem: M::Model, regs: RegFile)
    requires
        stage.settled(),
        stage.hands_on_read(),
        stage.prev_stage matches Some(prev) ==> !prev.idle_first(),
    ensures
        stage.worked::<M>(mem, regs).0.settled(),
        stage.worked::<M>(mem, regs).0.hands_on_read(),
        stage.worked::<M>(mem, regs).0.is_head == stage.is_head,
        stage.worked::<M>(mem, regs).0.prev_stage matches Some(prev) ==> !prev.idle_first(),
        stage.worked::<M>(mem, regs).0.instruction is None ==> stage.instruction is None
            || stage.is_head,
{
    if let Some(held) = stage.instruction {
        lemma_process_marks::<M>(stage.stage_type, mem, regs, held);
        let status = if held.meta.squashed {
            StageResult::DONE
        } else {
            stage.status
        };
        let (mem2, regs2, instr, status) = if status != StageResult::DONE || stage.is_head {
            process_model::<M>(stage.stage_type, mem, regs, held)
        } else {
            (mem, regs, held, status)
        };
        let processed = Stage { status, instruction: Some(instr), ..stage };
        assert(instr.meta.squashed == held.meta.squashed);
        assert(stage.stage_type != StageType::Fetch ==> instr.meta.initialized);
        assert(status == StageResult::DONE && stage.stage_type == StageType::Fetch
            ==> instr.meta.initialized);
        assert(processed.settled());
        lemma_squash_keeps_settled(processed);
    }
}

/// A cycle keeps placeholders where they belong. Let a chain be settled,
/// let its last stage not be marked as the last of a pipeline, and let it
/// be neither about to hand on a placeholder nor an idle first stage. Then
/// the same holds after a cycle.
pub proof fn lemma_upstream_stays_settled<M: Memory>(stage: Stage, mem: M::Model, regs: RegFile)
    requires
        stage.settled(),
        !stage.is_head,
        stage.hands_on_read(),
        !stage.idle_first(),
    ensures
        stage.cycled::<M>(mem, regs).0.settled(),
        !stage.cycled::<M>(mem, regs).0.is_head,
        stage.cycled::<M>(mem, regs).0.hands_on_read(),
        !stage.cycled::<M>(mem, regs).0.idle_first(),
        stage.cycled::<M>(mem, regs).0.instruction is None ==> stage.instruction is None,
    decreases stage.depth(),
{
    if stage.status != StageResult::HALT {
        let loaded = stage.loaded();
        lemma_load_keeps_depth(stage);
        lemma_load_keeps_settled(stage);
        lemma_work_keeps_depth::<M>(loaded, mem, regs);
        lemma_work_keeps_settled::<M>(loaded, mem, regs);
        let (worked, mem1, regs1) = loaded.worked::<M>(mem, regs);
        if let Some(prev) = worked.prev_stage {
            assert(prev.settled() && !prev.is_head && prev.hands_on_read());
            lemma_upstream_stays_settled::<M>(*prev, mem1, regs1);
        }
    }
}

/// A cycle of a whole pipeline keeps placeholders where they belong.
pub proof fn lemma_cycle_stays_settled<M: Memory>(stage: Stage, mem: M::Model, regs: RegFile)
    requires
        stage.settled(),
        stage.prev_stage is Some,
        stage.stage_type != StageType::Fetch,
    ensures
        stage.cycled::<M>(mem, regs).0.settled(),
{
    if stage.status != StageResult::HALT {
        let loaded = stage.loaded();
        lemma_load_keeps_depth(stage);
        lemma_load_keeps_settled(stage);
        lemma_work_keeps_depth::<M>(loaded, mem, regs);
        lemma_work_keeps_settled::<M>(loaded, mem, regs);
        let (worked, mem1, regs1) = loaded.worked::<M>(mem, regs);
        if let Some(prev) = worked.prev_stage {
            assert(prev.settled() && !prev.is_head && prev.hands_on_read());
            lemma_upstream_stays_settled::<M>(*prev, mem1, regs1);
        }
    }
}

/// What a cycle may do to the registers of a pipeline in which nothing is
/// alive: nothing, or move the program counter on by four.
pub open spec fn quiet_step(before: RegFile, after: RegFile) -> bool {
    after == before || after == before.set(
        Register::PC,
        before.get(Register::PC).wrapping_add(4),
    )
}

/// A cycle of the stages before Writeback while nothing in them is alive.
///
/// Let the chain be settled and let every instruction in it that Fetch has
/// read be killed. Then a cycle leaves the registers as they are, and again
/// everything read is killed; or Fetch has read a word at the program
/// counter, which is all that has changed in the registers, and what is
/// alive is in Fetch.
pub proof fn lemma_upstream_quiet<M: Memory>(stage: Stage, mem: M::Model, regs: RegFile)
    requires
        regs.wf(),
        stage.settled(),
        !stage.is_head,
        stage.hands_on_read(),
        !stage.idle_first(),
        stage.feeds_writeback(),
        stage.all_killed(),
    ensures
        ({
            let (after, _, registers, _) = stage.cycled::<M>(mem, regs);
            &&& quiet_step(regs, registers)
            &&& registers == regs ==> after.all_killed()
            &&& after.all_killed_or_new()
        }),
    decreases stage.depth(),
{
    lemma_killed_stays(stage);
    if stage.status != StageResult::HALT {
        reveal_with_fuel(Stage::settled, 2);
        reveal_with_fuel(Stage::all_killed, 2);
        reveal_with_fuel(Stage::feeds_writeback, 2);
        let loaded = stage.loaded();
        lemma_load_keeps_depth(stage);
        lemma_load_keeps_settled(stage);
        lemma_work_keeps_depth::<M>(loaded, mem, regs);
        lemma_work_keeps_settled::<M>(loaded, mem, regs);
        assert(loaded.all_killed());
        let (worked, mem1, regs1) = loaded.worked::<M>(mem, regs);
        if let Some(held) = loaded.instruction {
            lemma_process_marks::<M>(loaded.stage_type, mem, regs, held);
            if loaded.stage_type == StageType::Fetch {
                lemma_fetch_reads_at_pc::<M>(mem, regs, held);
            }
        }
        if let Some(prev) = worked.prev_stage {
            assert(worked.prev_stage == loaded.prev_stage);
            assert(regs1 == regs);
            assert(prev.all_killed());
            assert(prev.feeds_writeback());
            lemma_upstream_quiet::<M>(*prev, mem1, regs1);
        }
    }
}

/// A cycle of a pipeline while nothing in it is alive: the same as for the
/// stages before Writeback. What Writeback retires is killed and leaves no
/// trace.
pub proof fn lemma_pipeline_quiet<M: Memory>(stage: Stage, mem: M::Model, regs: RegFile)
    requires
        regs.wf(),
        stage.settled(),
        stage.is_head,
        stage.stage_type == StageType::Writeback,
        stage.prev_stage matches Some(prev) && prev.feeds_writeback(),
        stage.all_killed(),
    ensures
        ({
            let (after, _, registers, _) = stage.cycled::<M>(mem, regs);
            &&& quiet_step(regs, registers)
            &&& registers == regs ==> after.all_killed()
            &&& after.all_killed_or_new()
        }),
{
    lemma_killed_stays(stage);
    if stage.status != StageResult::HALT {
        reveal_with_fuel(Stage::settled, 2);
        reveal_with_fuel(Stage::all_killed, 2);
        let loaded = stage.loaded();
        lemma_load_keeps_depth(stage);
        lemma_load_keeps_settled(stage);
        lemma_work_keeps_depth::<M>(loaded, mem, regs);
        lemma_work_keeps_settled::<M>(loaded, mem, regs);
        assert(loaded.all_killed());
        let (worked, mem1, regs1) = loaded.worked::<M>(mem, regs);
        if let Some(held) = loaded.instruction {
            lemma_killed_has_no_effect::<M>(loaded, mem, regs);
        }
        let prev = worked.prev_stage->0;
        assert(worked.prev_stage == loaded.prev_stage);
        assert(regs1 == regs);
        lemma_shape_feeds_writeback(*prev);
        lemma_shape_feeds_writeback(*stage.prev_stage->0);
        assert(prev.cleared() == stage.prev_stage->0.cleared()) by {
            reveal_with_fuel(Stage::cleared, 2);
        }
        lemma_upstream_quiet::<M>(*prev, mem1, regs1);
    }
}

/// What the cycle in which a taken branch retires leaves behind: the program
/// counter at the target with nothing alive in the pipeline, or Fetch having
/// read the word at the target, with the program counter four beyond it and
/// nothing alive but in Fetch. In both cases nothing but the program counter
/// differs from the registers as Writeback left them.
pub proof fn lemma_branch_leaves_quiet<M: Memory>(stage: Stage, mem: M::Model, regs: RegFile)
    requires
        regs.wf(),
        stage.settled(),
        stage.is_head,
        stage.stage_type == StageType::Writeback,
        stage.status != StageResult::HALT,
        stage.prev_stage matches Some(prev) && prev.feeds_writeback(),
        stage.loaded().instruction matches Some(branch) && retires_taken_branch(
            branch,
        ) && branch.dest == Register::PC,
    ensures
        ({
            let committed = stage.loaded().worked::<M>(mem, regs).2;
            let (after, _, registers, _) = stage.cycled::<M>(mem, regs);
            &&& committed.get(Register::PC)
                == stage.loaded().instruction->0.meta.result
            &&& quiet_step(committed, registers)
            &&& registers == committed ==> after.all_killed()
            &&& after.all_killed_or_new()
        }),
{
    lemma_branch_retires::<M>(stage, mem, regs);
    reveal_with_fuel(Stage::settled, 2);
    let loaded = stage.loaded();
    lemma_load_keeps_depth(stage);
    lemma_load_keeps_settled(stage);
    lemma_work_keeps_depth::<M>(loaded, mem, regs);
    lemma_work_keeps_settled::<M>(loaded, mem, regs);
    let (worked, mem1, regs1) = loaded.worked::<M>(mem, regs);
    let branch = loaded.instruction->0;
    let (mem0, regs0, instr, status) = process_model::<M>(loaded.stage_type, mem, regs, branch);
    let processed = Stage { status, instruction: Some(instr), ..loaded };
    let before = loaded.prev_stage->0;
    assert(worked.prev_stage == Some(Box::new(before.squashed())));
    lemma_squash_keeps_feeding(*before);
    lemma_shape_feeds_writeback(*before);
    lemma_shape_feeds_writeback(*stage.prev_stage->0);
    assert(before.cleared() == stage.prev_stage->0.cleared()) by {
        reveal_with_fuel(Stage::cleared, 2);
    }
    reveal_with_fuel(Stage::all_killed, 2);
    lemma_upstream_quiet::<M>(before.squashed(), mem1, regs1);
}

} // verus!
