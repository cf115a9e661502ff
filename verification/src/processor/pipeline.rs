//! The pipeline: a chain of stages, each holding at most one instruction.
//!
//! The last stage owns its predecessor, and so on up to Fetch. A cycle of
//! the last stage is a cycle of the processor: every stage works on its own
//! instruction and then lets the stage before it work.

use super::instruction::{Fault, InstrMeta, Instruction};
use super::registers::{RegFile, Registers};
use super::stages::{
    decode, decode_model, execute, execute_model, fetch, fetch_model, memory, memory_model,
    writeback, writeback_model,
};
pub use super::stages::StageType;
use crate::memory::Memory;
use vstd::prelude::*;

verus! {

/// What a stage reports after working on its instruction for one cycle.
#[derive(Copy, Clone, Debug, PartialEq, Eq, Structural)]
pub enum StageResult {
    /// The instruction is ready for the next stage.
    DONE,
    /// The stage does not advance in this cycle.
    WAIT,
    /// Everything upstream is to be killed.
    SQUASH,
    /// The same as `DONE`, for the last stage.
    COMPLETE,
    /// The processor has stopped.
    HALT,
}

/// One cycle of work of a stage of kind `stage_type` on `instr`: the
/// memory, the register file, the instruction and the report that it leaves.
pub open spec fn process_model<M: Memory>(
    stage_type: StageType,
    mem: M::Model,
    regs: RegFile,
    instr: Instruction,
) -> (M::Model, RegFile, Instruction, StageResult) {
    match stage_type {
        StageType::Fetch => fetch_model::<M>(mem, regs, instr),
        StageType::Decode => {
            let (regs, instr, result) = decode_model(regs, instr);
            (mem, regs, instr, result)
        },
        StageType::Execute => {
            let (instr, result) = execute_model(regs, instr);
            (mem, regs, instr, result)
        },
        StageType::Memory => {
            let (mem, instr, result) = memory_model::<M>(mem, regs, instr);
            (mem, regs, instr, result)
        },
        StageType::Writeback => {
            let (mem, regs, result) = writeback_model::<M>(mem, regs, instr);
            (mem, regs, instr, result)
        },
    }
}

/// One cycle of work of a stage of kind `stage_type` on `instr`.
pub fn process<M: Memory>(
    stage_type: StageType,
    mem: &mut M,
    regs: &mut Registers,
    instr: &mut Instruction,
) -> (result: StageResult)
    requires
        M::inv(old(mem).model()),
    ensures
        (final(mem).model(), final(regs)@, *final(instr), result) == process_model::<M>(
            stage_type,
            old(mem).model(),
            old(regs)@,
            *old(instr),
        ),
        M::inv(final(mem).model()),
{
    match stage_type {
        StageType::Fetch => fetch(mem, regs, instr),
        StageType::Decode => decode(regs, instr),
        StageType::Execute => execute(regs, instr),
        StageType::Memory => memory(mem, regs, instr),
        StageType::Writeback => writeback(mem, regs, instr),
    }
}

/// The instruction marked as killed, if Fetch has read its word; a
/// placeholder stays as it is.
pub open spec fn killed(instr: Instruction) -> Instruction {
    if instr.meta.initialized {
        Instruction { meta: InstrMeta { squashed: true, ..instr.meta }, ..instr }
    } else {
        instr
    }
}

/// A cycle count one higher; the greatest count stays.
pub open spec fn next_count(cycles: u128) -> u128 {
    if cycles < u128::MAX {
        (cycles + 1) as u128
    } else {
        cycles
    }
}

/// One stage of the pipeline together with the stages before it.
pub struct Stage {
    pub status: StageResult,
    /// Whether this is the last stage, the one that retires instructions.
    pub is_head: bool,
    /// Whether a stage without predecessor makes up new instructions.
    pub pipeline_on: bool,
    pub cycles: u128,
    pub instruction: Option<Instruction>,
    pub stage_type: StageType,
    pub prev_stage: Option<Box<Stage>>,
}

impl Stage {
    /// The number of stages in the chain that ends here.
    pub open spec fn depth(self) -> nat
        decreases self,
    {
        match self.prev_stage {
            Some(prev) => prev.depth() + 1,
            None => 1,
        }
    }

    /// A stage with nothing in it, ready to hand on.
    pub open spec fn created(
        stage_type: StageType,
        prev_stage: Option<Box<Stage>>,
        is_head: bool,
    ) -> Stage {
        Stage {
            status: StageResult::DONE,
            is_head,
            pipeline_on: true,
            cycles: 0,
            instruction: None,
            stage_type,
            prev_stage,
        }
    }

    /// The stage after its instruction was handed on.
    pub open spec fn emptied(self) -> Stage {
        Stage { status: StageResult::WAIT, instruction: None, ..self }
    }

    /// The stage after the load step. An empty stage takes the instruction
    /// of its predecessor, if that is `DONE`; an empty stage without
    /// predecessor makes up a placeholder while the pipeline is on.
    pub open spec fn loaded(self) -> Stage {
        match self.prev_stage {
            Some(prev) => if self.instruction is None && prev.status == StageResult::DONE {
                Stage {
                    instruction: prev.instruction,
                    prev_stage: Some(Box::new(prev.emptied())),
                    ..self
                }
            } else {
                self
            },
            None => if self.instruction is None && self.pipeline_on {
                Stage { instruction: Some(Instruction::blank()), ..self }
            } else {
                self
            },
        }
    }

    /// The chain with every instruction killed that Fetch has read.
    pub open spec fn squashed(self) -> Stage
        decreases self,
    {
        Stage {
            instruction: match self.instruction {
                Some(instr) => Some(killed(instr)),
                None => None,
            },
            prev_stage: match self.prev_stage {
                Some(prev) => Some(Box::new(prev.squashed())),
                None => None,
            },
            ..self
        }
    }

    /// The chain as a processor shows it that has not run.
    pub open spec fn cleared(self) -> Stage
        decreases self,
    {
        Stage {
            cycles: 0,
            instruction: None,
            status: StageResult::DONE,
            prev_stage: match self.prev_stage {
                Some(prev) => Some(Box::new(prev.cleared())),
                None => None,
            },
            ..self
        }
    }

    /// The stage after its own work of one cycle, with the memory and the
    /// register file. The stages before it have not worked yet, but are
    /// killed where the work asked for it.
    ///
    /// A stage with nothing in it does nothing. A killed instruction is
    /// `DONE` at once. A stage that is not `DONE`, and the last stage always,
    /// works on its instruction. On `SQUASH` the whole chain is killed and the
    /// stage is `DONE`. The last stage drops an instruction that is `DONE`.
    pub open spec fn worked<M: Memory>(self, mem: M::Model, regs: RegFile) -> (
        Stage,
        M::Model,
        RegFile,
    ) {
        match self.instruction {
            None => (self, mem, regs),
            Some(held) => {
                let status = if held.meta.squashed {
                    StageResult::DONE
                } else {
                    self.status
                };
                let (mem, regs, instr, status) = if status != StageResult::DONE || self.is_head {
                    process_model::<M>(self.stage_type, mem, regs, held)
                } else {
                    (mem, regs, held, status)
                };
                let stage = Stage { status, instruction: Some(instr), ..self };
                let stage = if status == StageResult::SQUASH {
                    Stage { status: StageResult::DONE, ..stage.squashed() }
                } else {
                    stage
                };
                let stage = if stage.status == StageResult::DONE && stage.is_head {
                    Stage { instruction: None, ..stage }
                } else {
                    stage
                };
                (stage, mem, regs)
            },
        }
    }

    /// One cycle of the chain: the chain, the memory and the register file
    /// that it leaves, and whether the chain is still running.
    ///
    /// A stage that is `HALT` does nothing and says so. Any other loads, does
    /// its own work, lets the chain before it do a cycle, and counts the
    /// cycle. A stage whose predecessor has come to `HALT`, which only a fault
    /// brings about, is `HALT` as well.
    pub open spec fn cycled<M: Memory>(self, mem: M::Model, regs: RegFile) -> (
        Stage,
        M::Model,
        RegFile,
        bool,
    )
        decreases self.depth(),
    {
        if self.status == StageResult::HALT {
            (self, mem, regs, false)
        } else {
            let (stage, mem, regs) = self.loaded().worked::<M>(mem, regs);
            match stage.prev_stage {
                None => (Stage { cycles: next_count(stage.cycles), ..stage }, mem, regs, true),
                Some(prev) => {
                    proof {
                        lemma_load_keeps_depth(self);
                        lemma_work_keeps_depth::<M>(self.loaded(), mem, regs);
                    }
                    let (prev, mem, regs, _) = prev.cycled::<M>(mem, regs);
                    (
                        Stage {
                            status: if prev.status == StageResult::HALT {
                                StageResult::HALT
                            } else {
                                stage.status
                            },
                            cycles: next_count(stage.cycles),
                            prev_stage: Some(Box::new(prev)),
                            ..stage
                        },
                        mem,
                        regs,
                        true,
                    )
                },
            }
        }
    }

    /// The instruction of every stage, Fetch first.
    pub open spec fn instructions(self) -> Seq<Option<Instruction>>
        decreases self,
    {
        match self.prev_stage {
            Some(prev) => prev.instructions().push(self.instruction),
            None => seq![self.instruction],
        }
    }

    /// The status of every stage, Fetch first.
    pub open spec fn statuses(self) -> Seq<StageResult>
        decreases self,
    {
        match self.prev_stage {
            Some(prev) => prev.statuses().push(self.status),
            None => seq![self.status],
        }
    }

    /// The fault that stopped the chain: that of the instruction nearest to
    /// retirement that has one.
    pub open spec fn fault(self) -> Option<Fault>
        decreases self,
    {
        match self.instruction {
            Some(Instruction { meta: InstrMeta { fault: Some(fault), .. }, .. }) => Some(fault),
            _ => match self.prev_stage {
                Some(prev) => prev.fault(),
                None => None,
            },
        }
    }

    /// Whether every instruction in the chain that Fetch has read is killed.
    pub open spec fn all_killed(self) -> bool
        decreases self,
    {
        &&& self.instruction matches Some(instr) ==> (instr.meta.initialized
            ==> instr.meta.squashed)
        &&& self.prev_stage matches Some(prev) ==> prev.all_killed()
    }

    /// Whether every instruction in the chain that Fetch has read is killed
    /// or still in a Fetch stage.
    pub open spec fn all_killed_or_new(self) -> bool
        decreases self,
    {
        &&& self.instruction matches Some(instr) ==> (instr.meta.initialized
            ==> instr.meta.squashed || self.stage_type == StageType::Fetch)
        &&& self.prev_stage matches Some(prev) ==> prev.all_killed_or_new()
    }

    /// Whether the chain is the part of a pipeline before Writeback: a Fetch
    /// stage at its beginning, and after it only Decode, Execute and Memory
    /// stages.
    pub open spec fn feeds_writeback(self) -> bool
        decreases self,
    {
        match self.prev_stage {
            None => self.stage_type == StageType::Fetch,
            Some(prev) => self.stage_type != StageType::Fetch && self.stage_type
                != StageType::Writeback && prev.feeds_writeback(),
        }
    }

    /// Whether what the stage holds may be handed on: a stage that is `DONE`
    /// holds nothing, or an instruction that Fetch has read.
    pub open spec fn hands_on_read(self) -> bool {
        self.status == StageResult::DONE ==> (self.instruction matches Some(instr)
            ==> instr.meta.initialized)
    }

    /// Whether the stage is a first stage that is `DONE` with nothing in it.
    pub open spec fn idle_first(self) -> bool {
        self.prev_stage is None && self.status == StageResult::DONE && self.instruction is None
    }

    /// Whether placeholders are where they belong: in Fetch and nowhere
    /// else.
    ///
    /// The first stage is a Fetch stage. Every instruction outside a Fetch
    /// stage was read by Fetch, and so was every killed instruction; no stage
    /// but the last is marked as the last;
    /// every stage before another may hand on what it holds; and where a first
    /// stage is `DONE` with nothing in it, the stage after it is empty and has
    /// not stopped, so that it takes the nothing before the first stage makes
    /// up a placeholder.
    pub open spec fn settled(self) -> bool
        decreases self,
    {
        &&& self.instruction matches Some(instr) ==> (instr.meta.squashed
            ==> instr.meta.initialized) && (self.stage_type != StageType::Fetch
            ==> instr.meta.initialized)
        &&& self.prev_stage is None ==> self.stage_type == StageType::Fetch
        &&& self.prev_stage matches Some(prev) ==> {
            &&& prev.settled()
            &&& !prev.is_head
            &&& prev.hands_on_read()
            &&& prev.idle_first() ==> self.instruction is None && self.status
                != StageResult::HALT
        }
    }

    /// The number of instructions in the chain that Fetch has read.
    pub open spec fn in_flight(self) -> nat
        decreases self,
    {
        let own: nat = match self.instruction {
            Some(instr) => if instr.meta.initialized {
                1
            } else {
                0
            },
            None => 0,
        };
        match self.prev_stage {
            Some(prev) => prev.in_flight() + own,
            None => own,
        }
    }

    pub fn create(stage_type: StageType, prev_stage: Option<Box<Stage>>, is_head: bool) -> (stage:
        Stage)
        ensures
            stage == Stage::created(stage_type, prev_stage, is_head),
    {
        Stage {
            status: StageResult::DONE,
            pipeline_on: true,
            is_head,
            cycles: 0,
            instruction: None,
            stage_type,
            prev_stage,
        }
    }

    pub fn set_prev(&mut self, prev_stage: Box<Stage>)
        ensures
            *final(self) == (Stage { prev_stage: Some(prev_stage), ..*old(self) }),
    {
        self.prev_stage = Some(prev_stage)
    }

    /// Hands the instruction on to the next stage.
    pub fn transfer(&mut self) -> (instruction: Option<Instruction>)
        ensures
            *final(self) == old(self).emptied(),
            instruction == old(self).instruction,
    {
        self.status = StageResult::WAIT;
        self.instruction.take()
    }

    /// The load step.
    pub fn load(&mut self)
        ensures
            *final(self) == old(self).loaded(),
    {
        match &mut self.prev_stage {
            Some(prev) => {
                if self.instruction.is_none() && prev.status == StageResult::DONE {
                    self.instruction = prev.transfer();
                }
            },
            None => {
                if self.instruction.is_none() && self.pipeline_on {
                    self.instruction = Some(Instruction::new())
                }
            },
        };
    }

    /// Kills every instruction in the chain that Fetch has read.
    pub fn squash(&mut self)
        ensures
            *final(self) == old(self).squashed(),
        decreases old(self).depth(),
    {
        if let Some(held) = self.instruction {
            if held.meta.initialized {
                let mut instr = held;
                instr.meta.squashed = true;
                self.instruction = Some(instr);
            }
        }
        if let Some(prev_stage) = &mut self.prev_stage {
            prev_stage.squash();
        }
    }

    /// The stage's own work of one cycle.
    fn work<M: Memory>(&mut self, mem: &mut M, regs: &mut Registers)
        requires
            M::inv(old(mem).model()),
        ensures
            (*final(self), final(mem).model(), final(regs)@) == old(self).worked::<M>(
                old(mem).model(),
                old(regs)@,
            ),
            M::inv(final(mem).model()),
    {
        if let Some(held) = self.instruction {
            let mut instr = held;
            if instr.meta.squashed {
                self.status = StageResult::DONE
            }
            if self.status != StageResult::DONE || self.is_head {
                self.status = process(self.stage_type, mem, regs, &mut instr);
            }
            self.instruction = Some(instr);
            if self.status == StageResult::SQUASH {
                self.squash();
                self.status = StageResult::DONE
            }
            if self.status == StageResult::DONE && self.is_head {
                self.instruction = None
            }
        }
    }

    /// One cycle. Returns `false`, and does nothing, once the stage is
    /// `HALT`.
    pub fn cycle<M: Memory>(&mut self, mem: &mut M, regs: &mut Registers) -> (running: bool)
        requires
            M::inv(old(mem).model()),
        ensures
            (*final(self), final(mem).model(), final(regs)@, running) == old(self).cycled::<M>(
                old(mem).model(),
                old(regs)@,
            ),
            M::inv(final(mem).model()),
        decreases old(self).depth(),
    {
        if self.status == StageResult::HALT {
            return false;
        }
        self.load();
        self.work(mem, regs);
        proof {
            lemma_work_keeps_depth::<M>(old(self).loaded(), old(mem).model(), old(regs)@);
            lemma_load_keeps_depth(*old(self));
        }
        if let Some(prev) = &mut self.prev_stage {
            prev.cycle(mem, regs);
            if prev.status == StageResult::HALT {
                self.status = StageResult::HALT;
            }
        }
        if self.cycles < u128::MAX {
            self.cycles += 1;
        }
        true
    }

    /// Empties every stage and zeroes the register file.
    pub fn reset(&mut self, regs: &mut Registers)
        ensures
            *final(self) == old(self).cleared(),
            final(regs)@ == RegFile::zero(),
        decreases old(self).depth(),
    {
        self.cycles = 0;
        self.instruction = None;
        self.status = StageResult::DONE;
        regs.reset();
        if let Some(prev_stage) = &mut self.prev_stage {
            prev_stage.reset(regs);
        }
    }

    pub fn view_pipeline_instrs(&self) -> (instrs: Vec<&Option<Instruction>>)
        ensures
            instrs@.len() == self.instructions().len(),
            forall|i: int| 0 <= i < instrs@.len() ==> *instrs@[i] == self.instructions()[i],
        decreases self.depth(),
    {
        let mut instrs = match &self.prev_stage {
            Some(prev) => prev.view_pipeline_instrs(),
            None => Vec::new(),
        };
        instrs.push(&self.instruction);
        instrs
    }

    pub fn view_pipeline_status(&self) -> (statuses: Vec<StageResult>)
        ensures
            statuses@ == self.statuses(),
        decreases self.depth(),
    {
        let mut statuses = match &self.prev_stage {
            Some(prev) => prev.view_pipeline_status(),
            None => Vec::new(),
        };
        statuses.push(self.status);
        statuses
    }

    /// The fault that stopped the chain, if one did.
    pub fn view_fault(&self) -> (fault: Option<Fault>)
        ensures
            fault == self.fault(),
        decreases self.depth(),
    {
        if let Some(instr) = self.instruction {
            if let Some(fault) = instr.meta.fault {
                return Some(fault);
            }
        }
        match &self.prev_stage {
            Some(prev) => prev.view_fault(),
            None => None,
        }
    }

    pub fn view_cycles(&self) -> (cycles: u128)
        ensures
            cycles == self.cycles,
    {
        self.cycles
    }
}

/// Killing the instructions of a chain changes neither its length nor any
/// stage's kind, status or place.
pub proof fn lemma_squash_keeps_depth(stage: Stage)
    ensures
        stage.squashed().depth() == stage.depth(),
    decreases stage,
{
    if let Some(prev) = stage.prev_stage {
        lemma_squash_keeps_depth(*prev);
    }
}

/// Clearing a chain does not change its length.
pub proof fn lemma_cleared_keeps_depth(stage: Stage)
    ensures
        stage.cleared().depth() == stage.depth(),
    decreases stage,
{
    if let Some(prev) = stage.prev_stage {
        lemma_cleared_keeps_depth(*prev);
    }
}

/// The load step does not change the length of a chain.
pub proof fn lemma_load_keeps_depth(stage: Stage)
    ensures
        stage.loaded().depth() == stage.depth(),
{
    reveal_with_fuel(Stage::depth, 2);
}

/// A stage's own work does not change the length of its chain.
pub proof fn lemma_work_keeps_depth<M: Memory>(stage: Stage, mem: M::Model, regs: RegFile)
    ensures
        stage.worked::<M>(mem, regs).0.depth() == stage.depth(),
{
    if let Some(held) = stage.instruction {
        let status = if held.meta.squashed {
            StageResult::DONE
        } else {
            stage.status
        };
        let (mem1, regs1, instr, status) = if status != StageResult::DONE || stage.is_head {
            process_model::<M>(stage.stage_type, mem, regs, held)
        } else {
            (mem, regs, held, status)
        };
        let worked = Stage { status, instruction: Some(instr), ..stage };
        lemma_squash_keeps_depth(worked);
    }
}

/// Killing, loading and a stage's own work change nothing that clearing
/// the chain would keep.
pub proof fn lemma_squash_keeps_shape(stage: Stage)
    ensures
        stage.squashed().cleared() == stage.cleared(),
    decreases stage,
{
    if let Some(prev) = stage.prev_stage {
        lemma_squash_keeps_shape(*prev);
    }
}

pub proof fn lemma_load_keeps_shape(stage: Stage)
    ensures
        stage.loaded().cleared() == stage.cleared(),
{
    reveal_with_fuel(Stage::cleared, 2);
}

pub proof fn lemma_work_keeps_shape<M: Memory>(stage: Stage, mem: M::Model, regs: RegFile)
    ensures
        stage.worked::<M>(mem, regs).0.cleared() == stage.cleared(),
{
    if let Some(held) = stage.instruction {
        let status = if held.meta.squashed {
            StageResult::DONE
        } else {
            stage.status
        };
        let (mem1, regs1, instr, status) = if status != StageResult::DONE || stage.is_head {
            process_model::<M>(stage.stage_type, mem, regs, held)
        } else {
            (mem, regs, held, status)
        };
        let worked = Stage { status, instruction: Some(instr), ..stage };
        lemma_squash_keeps_shape(worked);
    }
}

/// Whatever a stage does to an instruction, the memory stays valid, a
/// reset would make the same of it as before, and the register file keeps
/// its sixteen registers.
pub proof fn lemma_process<M: Memory>(
    stage_type: StageType,
    mem: M::Model,
    regs: RegFile,
    instr: Instruction,
)
    requires
        M::inv(mem),
        regs.wf(),
    ensures
        M::inv(process_model::<M>(stage_type, mem, regs, instr).0),
        M::reset_model(process_model::<M>(stage_type, mem, regs, instr).0) == M::reset_model(mem),
        process_model::<M>(stage_type, mem, regs, instr).1.wf(),
{
    match stage_type {
        StageType::Fetch => {
            M::lemma_read(
                mem,
                regs.get(super::registers::Register::PC) as usize,
                StageType::Fetch,
                false,
            );
        },
        StageType::Decode => {},
        StageType::Execute => {},
        StageType::Memory => {
            let addr = instr.arg_2(regs) as usize;
            M::lemma_read(mem, addr, StageType::Memory, false);
            M::lemma_write(
                mem,
                addr,
                crate::memory::ValueView::Value(instr.arg_1(regs) as usize),
                StageType::Memory,
            );
        },
        StageType::Writeback => {
            M::lemma_maintenance(mem, 0, Seq::empty());
        },
    }
}

/// The same of a stage's own work.
pub proof fn lemma_work<M: Memory>(stage: Stage, mem: M::Model, regs: RegFile)
    requires
        M::inv(mem),
        regs.wf(),
    ensures
        M::inv(stage.worked::<M>(mem, regs).1),
        M::reset_model(stage.worked::<M>(mem, regs).1) == M::reset_model(mem),
        stage.worked::<M>(mem, regs).2.wf(),
{
    if let Some(held) = stage.instruction {
        lemma_process::<M>(stage.stage_type, mem, regs, held);
    }
}

/// What a cycle keeps. The chain has as many stages as before, and clearing
/// it gives what clearing it before would have given: a cycle moves
/// instructions, statuses and the count, and nothing else. The memory stays
/// valid, and a reset would make the same of it as before. The register
/// file keeps its sixteen registers.
pub proof fn lemma_cycle<M: Memory>(stage: Stage, mem: M::Model, regs: RegFile)
    requires
        M::inv(mem),
        regs.wf(),
    ensures
        stage.cycled::<M>(mem, regs).0.depth() == stage.depth(),
        stage.cycled::<M>(mem, regs).0.cleared() == stage.cleared(),
        M::inv(stage.cycled::<M>(mem, regs).1),
        M::reset_model(stage.cycled::<M>(mem, regs).1) == M::reset_model(mem),
        stage.cycled::<M>(mem, regs).2.wf(),
    decreases stage.depth(),
{
    if stage.status != StageResult::HALT {
        lemma_load_keeps_depth(stage);
        lemma_load_keeps_shape(stage);
        lemma_work_keeps_depth::<M>(stage.loaded(), mem, regs);
        lemma_work_keeps_shape::<M>(stage.loaded(), mem, regs);
        lemma_work::<M>(stage.loaded(), mem, regs);
        let (worked, mem1, regs1) = stage.loaded().worked::<M>(mem, regs);
        if let Some(prev) = worked.prev_stage {
            lemma_cycle::<M>(*prev, mem1, regs1);
        }
    }
}

/// Once a chain is `HALT` a cycle changes nothing and reports that the
/// chain has stopped.
pub proof fn lemma_halted_stays<M: Memory>(stage: Stage, mem: M::Model, regs: RegFile)
    requires
        stage.status == StageResult::HALT,
    ensures
        stage.cycled::<M>(mem, regs) == (stage, mem, regs, false),
{
}

/// A chain holds at most one instruction for each of its stages.
pub proof fn lemma_in_flight_bounded(stage: Stage)
    ensures
        stage.in_flight() <= stage.depth(),
        stage.instructions().len() == stage.depth(),
        stage.statuses().len() == stage.depth(),
    decreases stage,
{
    if let Some(prev) = stage.prev_stage {
        lemma_in_flight_bounded(*prev);
    }
}

/// After every cycle of a chain, the number of instructions in it that
/// Fetch has read is at most the number of its stages.
pub proof fn lemma_in_flight_after_cycle<M: Memory>(stage: Stage, mem: M::Model, regs: RegFile)
    requires
        M::inv(mem),
        regs.wf(),
    ensures
        stage.cycled::<M>(mem, regs).0.in_flight() <= stage.depth(),
{
    lemma_cycle::<M>(stage, mem, regs);
    lemma_in_flight_bounded(stage.cycled::<M>(mem, regs).0);
}

} // verus!
