//! A cycle-accurate simulator of a small 32-bit pipelined processor and its
//! memory hierarchy.
//!
//! Every executable function is specified against a mathematical model of
//! the state it works on: the register file is a pair of sequences, a memory
//! level is a record of sequences of words, and one cycle of the pipeline is
//! a function from state to state.

pub mod assembler;
pub mod memory;
pub mod processor;

use crate::memory::cache::CacheModel;
use crate::memory::ram::RamModel;
use crate::memory::{Cache, Memory, MemoryAccess, Transparency, RAM};
use crate::processor::instruction::{Fault, Instruction};
use crate::processor::laws::quiet_step;
use crate::processor::pipeline::{lemma_cycle, Stage, StageResult, StageType};
use crate::processor::registers::{RegFile, Register, Registers};
use crate::processor::stages::{retires_taken_branch, writeback_model};
use vstd::prelude::*;

verus! {

/// The simulator as mathematics: the pipeline, the memory hierarchy and the
/// register file.
pub struct SimulatorModel {
    pub processor: Stage,
    pub memory: CacheModel<RamModel>,
    pub registers: RegFile,
}

/// The program words as the memory holds them.
pub open spec fn program_words(program: Seq<u32>) -> Seq<usize> {
    program.map_values(|word: u32| word as usize)
}

impl SimulatorModel {
    /// The memory of a simulator that has not run: 65536 lines of sixteen
    /// four-byte words with latency 5, behind a two-way cache of 16384 bytes
    /// with lines of the same length and latency 1.
    pub open spec fn fresh_memory() -> CacheModel<RamModel> {
        CacheModel::blank(16384, 16, 4, 1, 2, RamModel::blank(65536, 16, 4, 5))
    }

    /// The simulator that has not run.
    pub open spec fn fresh() -> SimulatorModel {
        SimulatorModel {
            processor: crate::processor::pipeline(),
            memory: Self::fresh_memory(),
            registers: RegFile::zero(),
        }
    }

    /// The simulator is one that a fresh simulator can have become: its
    /// memory is valid and a reset would make the fresh memory of it, and
    /// its pipeline is the five-stage pipeline in some state, with
    /// placeholders in Fetch and nowhere else.
    pub open spec fn wf(self) -> bool {
        &&& Cache::<RAM>::inv(self.memory)
        &&& Cache::<RAM>::reset_model(self.memory) == Self::fresh_memory()
        &&& self.processor.cleared() == crate::processor::pipeline()
        &&& self.processor.settled()
        &&& self.registers.wf()
    }

    /// The simulator after `n` cycles.
    pub open spec fn after(self, n: nat) -> SimulatorModel
        decreases n,
    {
        if n == 0 {
            self
        } else {
            self.after((n - 1) as nat).cycled().0
        }
    }

    /// The simulator after one cycle, and whether it is still running.
    pub open spec fn cycled(self) -> (SimulatorModel, bool) {
        let (processor, memory, registers, running) = self.processor.cycled::<Cache<RAM>>(
            self.memory,
            self.registers,
        );
        (SimulatorModel { processor, memory, registers }, running)
    }

    /// The simulator with a program in its memory.
    pub open spec fn flashed(self, addr: usize, program: Seq<u32>) -> SimulatorModel {
        SimulatorModel {
            memory: Cache::<RAM>::flash_model(self.memory, addr, program_words(program)),
            ..self
        }
    }
}

/// The fresh simulator is valid.
pub proof fn lemma_fresh_is_valid()
    ensures
        SimulatorModel::fresh().wf(),
{
    crate::processor::lemma_pipeline();
    reveal_with_fuel(Stage::settled, 6);
    let m = SimulatorModel::fresh_memory();
    assert(16384int / 4 / 16 == 256);
    assert(m.num_lines == 256);
    assert(Cache::<RAM>::reset_model(m) == m);
}

/// A cycle keeps a valid simulator valid.
pub proof fn lemma_cycle_keeps_valid(m: SimulatorModel)
    requires
        m.wf(),
    ensures
        m.cycled().0.wf(),
{
    lemma_cycle::<Cache<RAM>>(m.processor, m.memory, m.registers);
    lemma_shape(m);
    crate::processor::laws::lemma_cycle_stays_settled::<Cache<RAM>>(
        m.processor,
        m.memory,
        m.registers,
    );
}

/// The pipeline of a valid simulator ends in Writeback, marked as the last
/// stage, and the stages before it are Fetch, then Decode, Execute and
/// Memory.
pub proof fn lemma_shape(m: SimulatorModel)
    requires
        m.wf(),
    ensures
        m.processor.is_head,
        m.processor.stage_type == StageType::Writeback,
        m.processor.prev_stage matches Some(prev) && prev.feeds_writeback(),
{
    crate::processor::lemma_pipeline();
    crate::processor::laws::lemma_shape_feeds_writeback(*m.processor.prev_stage->0);
}

/// In a valid simulator, before and after every cycle, at most five
/// instructions that Fetch has read are in the pipeline.
pub proof fn lemma_at_most_five_in_flight(m: SimulatorModel)
    requires
        m.wf(),
    ensures
        m.processor.in_flight() <= 5,
        m.cycled().0.processor.in_flight() <= 5,
{
    crate::processor::lemma_pipeline();
    crate::processor::pipeline::lemma_cleared_keeps_depth(m.processor);
    crate::processor::pipeline::lemma_in_flight_bounded(m.processor);
    crate::processor::pipeline::lemma_in_flight_after_cycle::<Cache<RAM>>(
        m.processor,
        m.memory,
        m.registers,
    );
}

/// The cycle of a valid simulator in which a taken branch retires.
///
/// Let Writeback hold, after its load step, a branch that was taken and not
/// killed, with the program counter as its destination. Writeback puts the
/// target into the program counter and releases every register. After the
/// cycle the branch is gone, and one of two things holds. Either the
/// registers are as Writeback left them and every instruction in the
/// pipeline that Fetch has read is killed. Or Fetch has read the word at the
/// target: the program counter is four beyond the target, nothing else has
/// changed in the registers, and whatever is read and not killed is in
/// Fetch.
pub proof fn lemma_taken_branch_redirects(m: SimulatorModel)
    requires
        m.wf(),
        m.processor.status != StageResult::HALT,
        m.processor.loaded().instruction matches Some(branch) && retires_taken_branch(branch)
            && branch.dest == Register::PC,
    ensures
        ({
            let branch = m.processor.loaded().instruction->0;
            let committed = writeback_model::<Cache<RAM>>(m.memory, m.registers, branch).1;
            let after = m.cycled().0;
            &&& committed.get(Register::PC) == branch.meta.result
            &&& committed.in_use == RegFile::zero().in_use
            &&& after.processor.instruction is None
            &&& quiet_step(committed, after.registers)
            &&& after.registers == committed ==> after.processor.all_killed()
            &&& after.processor.all_killed_or_new()
        }),
{
    lemma_shape(m);
    crate::processor::laws::lemma_branch_retires::<Cache<RAM>>(
        m.processor,
        m.memory,
        m.registers,
    );
    crate::processor::laws::lemma_branch_leaves_quiet::<Cache<RAM>>(
        m.processor,
        m.memory,
        m.registers,
    );
}

/// A cycle of a valid simulator while nothing in its pipeline is alive.
///
/// Let every instruction in the pipeline that Fetch has read be killed. Then
/// a cycle leaves the registers as they are, and again everything read is
/// killed; or Fetch has read the word at the program counter, the program
/// counter has moved on by four, nothing else has changed in the registers,
/// and whatever is read and not killed is in Fetch.
pub proof fn lemma_quiet_cycle(m: SimulatorModel)
    requires
        m.wf(),
        m.processor.all_killed(),
    ensures
        quiet_step(m.registers, m.cycled().0.registers),
        m.cycled().0.registers == m.registers ==> m.cycled().0.processor.all_killed(),
        m.cycled().0.processor.all_killed_or_new(),
{
    lemma_shape(m);
    crate::processor::laws::lemma_pipeline_quiet::<Cache<RAM>>(
        m.processor,
        m.memory,
        m.registers,
    );
}

/// After a taken branch, until Fetch has read the word at the target, no
/// instruction writes to a register.
///
/// Let every instruction in the pipeline of a valid simulator that Fetch has
/// read be killed, as it is when a taken branch has retired. Then for as
/// many cycles as the program counter stays where it is, the registers stay
/// as they are and everything read stays killed. By `lemma_quiet_cycle` the
/// first cycle that moves the program counter is one in which Fetch reads
/// the word it pointed to.
pub proof fn lemma_quiet_while_pc_stays(m: SimulatorModel, n: nat)
    requires
        m.wf(),
        m.processor.all_killed(),
        forall|k: nat|
            k <= n ==> (#[trigger] m.after(k)).registers.get(Register::PC) == m.registers.get(
                Register::PC,
            ),
    ensures
        m.after(n).wf(),
        m.after(n).registers == m.registers,
        m.after(n).processor.all_killed(),
    decreases n,
{
    if n > 0 {
        let before = m.after((n - 1) as nat);
        assert forall|k: nat| k <= (n - 1) as nat implies (#[trigger] m.after(
            k,
        )).registers.get(Register::PC) == m.registers.get(Register::PC) by {
            assert(k <= n);
        }
        lemma_quiet_while_pc_stays(m, (n - 1) as nat);
        lemma_cycle_keeps_valid(before);
        lemma_quiet_cycle(before);
        assert(m.after(n) == before.cycled().0);
        assert(m.after(n).registers.get(Register::PC) == m.registers.get(Register::PC));
    }
}

/// The simulator: the pipeline, the memory hierarchy that it works on, and
/// the register file.
pub struct Simulator {
    processor: Box<Stage>,
    memory: Cache<RAM>,
    registers: Registers,
}

impl View for Simulator {
    type V = SimulatorModel;

    closed spec fn view(&self) -> SimulatorModel {
        SimulatorModel {
            processor: *self.processor,
            memory: self.memory.model(),
            registers: self.registers@,
        }
    }
}

impl Simulator {
    pub fn new() -> (simulator: Simulator)
        ensures
            simulator@ == SimulatorModel::fresh(),
            simulator@.wf(),
    {
        let ram = Box::new(RAM::new(65536, 16, 4, 5));
        let cache = Cache::new(16384, 16, 4, 1, 2, ram);
        proof {
            lemma_fresh_is_valid();
        }
        Simulator {
            processor: crate::processor::new(),
            memory: cache,
            registers: Registers::default(),
        }
    }

    /// Writes `program[i]` to the word at `addr + 4 * i`, for every `i`.
    pub fn flash(&mut self, addr: usize, program: &Vec<u32>)
        requires
            old(self)@.wf(),
            addr + 4 * program@.len() <= usize::MAX,
        ensures
            final(self)@ == old(self)@.flashed(addr, program@),
            final(self)@.wf(),
    {
        let mut words: Vec<usize> = Vec::new();
        let mut i: usize = 0;
        while i < program.len()
            invariant
                i <= program@.len(),
                words@ == program_words(program@.subrange(0, i as int)),
            decreases program@.len() - i,
        {
            words.push(program[i] as usize);
            assert(words@ =~= program_words(program@.subrange(0, i + 1)));
            i += 1;
        }
        assert(program@.subrange(0, i as int) =~= program@);
        proof {
            Cache::<RAM>::lemma_maintenance(self.memory.model(), addr, words@);
        }
        self.memory.flash(addr, words.as_slice());
    }

    /// Empties the pipeline and zeroes the registers and the memory: what
    /// is left is the simulator that has not run.
    pub fn reset(&mut self)
        requires
            old(self)@.wf(),
        ensures
            final(self)@ == SimulatorModel::fresh(),
            final(self)@.wf(),
    {
        self.processor.reset(&mut self.registers);
        self.memory.reset();
        proof {
            lemma_fresh_is_valid();
        }
    }

    /// One cycle of the processor. Returns `false`, and does nothing, once
    /// the processor has halted.
    pub fn cycle(&mut self) -> (running: bool)
        requires
            old(self)@.wf(),
        ensures
            (final(self)@, running) == old(self)@.cycled(),
            final(self)@.wf(),
    {
        proof {
            lemma_cycle_keeps_valid(self@);
        }
        self.processor.cycle(&mut self.memory, &mut self.registers)
    }

    pub fn view_registers(&self) -> (values: [i32; 16])
        ensures
            values@ == self@.registers.values,
    {
        self.registers.registers
    }

    pub fn view_register_status(&self) -> (in_use: [bool; 16])
        ensures
            in_use@ == self@.registers.in_use,
    {
        self.registers.in_use
    }

    pub fn view_cycles(&self) -> (cycles: u128)
        ensures
            cycles == self@.processor.cycles,
    {
        self.processor.view_cycles()
    }

    /// The fault that stopped the processor, if one did.
    pub fn view_fault(&self) -> (fault: Option<Fault>)
        ensures
            fault == self@.processor.fault(),
    {
        self.processor.view_fault()
    }

    /// The access state of main memory and of the cache, in this order.
    pub fn view_access(&self) -> (accesses: Vec<&MemoryAccess>)
        ensures
            accesses@.len() == Cache::<RAM>::accesses_of(self@.memory).len(),
            forall|i: int|
                0 <= i < accesses@.len() ==> *accesses@[i] == Cache::<RAM>::accesses_of(
                    self@.memory,
                )[i],
    {
        self.memory.view_access()
    }

    /// The instruction of every stage, Fetch first.
    pub fn view_pipeline_instrs(&self) -> (instrs: Vec<&Option<Instruction>>)
        ensures
            instrs@.len() == self@.processor.instructions().len(),
            forall|i: int|
                0 <= i < instrs@.len() ==> *instrs@[i] == self@.processor.instructions()[i],
    {
        self.processor.view_pipeline_instrs()
    }

    /// The status of every stage, Fetch first.
    pub fn view_pipeline_status(&self) -> (statuses: Vec<StageResult>)
        ensures
            statuses@ == self@.processor.statuses(),
    {
        self.processor.view_pipeline_status()
    }

    /// Line `line_num` of main memory and of the cache, in this order.
    pub fn view_line(&self, line_num: usize) -> (lines: Vec<&Vec<usize>>)
        requires
            self@.wf(),
        ensures
            lines.deep_view() == Cache::<RAM>::lines_of(self@.memory, line_num),
    {
        self.memory.view_line(line_num)
    }

    /// The sizes of main memory and of the cache, in this order.
    pub fn view_size(&self) -> (sizes: Vec<usize>)
        ensures
            sizes@ == Cache::<RAM>::sizes_of(self@.memory),
    {
        self.memory.view_size()
    }
}

} // verus!
