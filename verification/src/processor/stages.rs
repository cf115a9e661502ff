//! What each of the five stages does to the instruction it holds.

use super::instruction::{
    ALUType, AddrMode, ControlType, Fault, InstrMeta, InstrType, Instruction, InterruptType,
    MemoryType,
};
use super::pipeline::StageResult;
use super::registers::{RegFile, Register, Registers};
use crate::memory::{Memory, MemoryValue, ValueView};
use vstd::prelude::*;

verus! {

/// The five positions of the pipeline, in program order.
#[derive(Clone, Copy, Debug, PartialEq, Eq, Structural)]
pub enum StageType {
    Fetch,
    Decode,
    Execute,
    Memory,
    Writeback,
}

/// Bits 31..29 of an instruction word: the class.
pub open spec fn class_field(w: u32) -> u32 {
    w >> 29
}

/// Bits 28..25: the opcode within the class.
pub open spec fn opcode_field(w: u32) -> u32 {
    (w >> 25) & 0xF
}

/// Bits 24..22: the addressing mode.
pub open spec fn mode_field(w: u32) -> u32 {
    (w >> 22) & 0x7
}

/// Bits 21..18: the first register.
pub open spec fn reg_1_field(w: u32) -> u32 {
    (w >> 18) & 0xF
}

/// Bits 17..14: the second register.
pub open spec fn reg_2_field(w: u32) -> u32 {
    (w >> 14) & 0xF
}

/// The immediate of a word in a mode: sixteen, twelve or twenty-two low
/// bits; the modes without an immediate have none.
pub open spec fn imm_field(w: u32, mode: AddrMode) -> Option<u32> {
    match mode {
        AddrMode::RegRegOff => Some(w & 0xFFFF),
        AddrMode::RegImm => Some(w & 0xFFF),
        AddrMode::Imm => Some(w & 0x3FFFFF),
        _ => None,
    }
}

/// Whether a mode's operand bits name a first register.
pub open spec fn names_reg_1(mode: AddrMode) -> bool {
    mode != AddrMode::Imm
}

/// Whether a mode's operand bits name a second register.
pub open spec fn names_reg_2(mode: AddrMode) -> bool {
    mode == AddrMode::RegReg || mode == AddrMode::RegRegOff
}

/// The register an instruction writes: the program counter for a branch, the
/// branch flag for `CMP`, else the one that its operands name.
pub open spec fn dest_of(t: InstrType, named: Register) -> Register {
    match t {
        InstrType::Control(_) => Register::PC,
        InstrType::ALU(ALUType::CMP) => Register::BF,
        _ => named,
    }
}

/// The instruction with the fields of its raw word filled in, or the reason
/// why the word is no instruction.
///
/// Fields that the word's mode does not carry keep the value they had. The
/// destination is the first register where the mode names one.
pub open spec fn decoded(instr: Instruction) -> Result<Instruction, Fault> {
    let w = instr.instr_raw as u32;
    if class_field(w) > 3 {
        Err(Fault::InvalidClass)
    } else {
        match InstrType::of(class_field(w) as int, opcode_field(w) as int) {
            None => Err(Fault::InvalidOpcode),
            Some(t) => match AddrMode::of(mode_field(w) as int) {
                None => Err(Fault::InvalidAddrMode),
                Some(mode) => {
                    let reg_1 = if names_reg_1(mode) {
                        Register::at(reg_1_field(w) as int)
                    } else {
                        instr.reg_1
                    };
                    let reg_2 = if names_reg_2(mode) {
                        Register::at(reg_2_field(w) as int)
                    } else {
                        instr.reg_2
                    };
                    Ok(
                        Instruction {
                            instr_type: t,
                            addr_mode: mode,
                            reg_1,
                            reg_2,
                            imm: match imm_field(w, mode) {
                                Some(imm) => imm as i32,
                                None => instr.imm,
                            },
                            dest: if names_reg_1(mode) {
                                reg_1
                            } else {
                                instr.dest
                            },
                            ..instr
                        },
                    )
                },
            },
        }
    }
}

/// Whether a decoded instruction has to wait: one of the registers it names
/// is reserved, or it is a branch and the branch flag is.
pub open spec fn hazard(regs: RegFile, instr: Instruction) -> bool {
    ||| names_reg_1(instr.addr_mode) && regs.busy(instr.reg_1)
    ||| names_reg_2(instr.addr_mode) && regs.busy(instr.reg_2)
    ||| instr.instr_type is Control && regs.busy(Register::BF)
}

/// The instruction marked with a fault.
pub open spec fn faulted(instr: Instruction, fault: Fault) -> Instruction {
    Instruction { meta: InstrMeta { fault: Some(fault), ..instr.meta }, ..instr }
}

/// One cycle of Decode: the register file, the instruction and the report
/// that it leaves.
///
/// An instruction that has to wait has its fields, and nothing is reserved.
/// One that goes on has its destination as well, and the destination is
/// reserved.
pub open spec fn decode_model(regs: RegFile, instr: Instruction) -> (RegFile, Instruction, StageResult) {
    match decoded(instr) {
        Err(fault) => (regs, faulted(instr, fault), StageResult::HALT),
        Ok(d) => if hazard(regs, d) {
            (regs, d, StageResult::WAIT)
        } else {
            let dest = dest_of(d.instr_type, d.dest);
            (regs.mark(dest, true), Instruction { dest, ..d }, StageResult::DONE)
        },
    }
}

proof fn lemma_fields_bounded(w: u32)
    by (bit_vector)
    ensures
        w >> 29 < 8,
        (w >> 25) & 0xF < 16,
        (w >> 22) & 0x7 < 8,
        (w >> 18) & 0xF < 16,
        (w >> 14) & 0xF < 16,
        w & 0xFFFF < 0x10000,
        w & 0xFFF < 0x1000,
        w & 0x3FFFFF < 0x400000,
{
}

/// Decode: reads the fields of the raw word, then reserves the destination
/// unless a register that the instruction names is still reserved.
///
/// A word that is no instruction stops the pipeline: the report is `HALT`
/// and the instruction carries the fault.
pub fn decode(regs: &mut Registers, instr: &mut Instruction) -> (result: StageResult)
    ensures
        (final(regs)@, *final(instr), result) == decode_model(old(regs)@, *old(instr)),
{
    let w: u32 = instr.instr_raw as u32;
    proof {
        lemma_fields_bounded(w);
    }
    let class: u32 = w >> 29;
    let opcode: i32 = ((w >> 25) & 0xF) as i32;
    let mode: i32 = ((w >> 22) & 0x7) as i32;
    let instr_type = match class {
        0b000 => match ALUType::from_i32(opcode) {
            Some(op) => Some(InstrType::ALU(op)),
            None => None,
        },
        0b001 => match MemoryType::from_i32(opcode) {
            Some(op) => Some(InstrType::Memory(op)),
            None => None,
        },
        0b010 => match ControlType::from_i32(opcode) {
            Some(op) => Some(InstrType::Control(op)),
            None => None,
        },
        0b011 => match InterruptType::from_i32(opcode) {
            Some(op) => Some(InstrType::Interrupt(op)),
            None => None,
        },
        _ => {
            instr.meta.fault = Some(Fault::InvalidClass);
            return StageResult::HALT;
        },
    };
    let instr_type = match instr_type {
        Some(t) => t,
        None => {
            instr.meta.fault = Some(Fault::InvalidOpcode);
            return StageResult::HALT;
        },
    };
    let addr_mode = match AddrMode::from_i32(mode) {
        Some(m) => m,
        None => {
            instr.meta.fault = Some(Fault::InvalidAddrMode);
            return StageResult::HALT;
        },
    };
    instr.instr_type = instr_type;
    instr.addr_mode = addr_mode;

    let mut waits = false;
    match addr_mode {
        AddrMode::RegReg => {
            instr.reg_1 = Register::from_i32(((w >> 18) & 0xF) as i32).unwrap();
            instr.reg_2 = Register::from_i32(((w >> 14) & 0xF) as i32).unwrap();
            instr.dest = instr.reg_1;
            waits = regs.is_in_use(instr.reg_1) || regs.is_in_use(instr.reg_2);
        },
        AddrMode::RegRegOff => {
            instr.reg_1 = Register::from_i32(((w >> 18) & 0xF) as i32).unwrap();
            instr.reg_2 = Register::from_i32(((w >> 14) & 0xF) as i32).unwrap();
            instr.imm = (w & 0xFFFF) as i32;
            instr.dest = instr.reg_1;
            waits = regs.is_in_use(instr.reg_1) || regs.is_in_use(instr.reg_2);
        },
        AddrMode::RegImm => {
            instr.reg_1 = Register::from_i32(((w >> 18) & 0xF) as i32).unwrap();
            instr.imm = (w & 0xFFF) as i32;
            instr.dest = instr.reg_1;
            waits = regs.is_in_use(instr.reg_1);
        },
        AddrMode::Imm => {
            instr.imm = (w & 0x3FFFFF) as i32;
        },
        AddrMode::Reg => {
            instr.reg_1 = Register::from_i32(((w >> 18) & 0xF) as i32).unwrap();
            instr.dest = instr.reg_1;
            waits = regs.is_in_use(instr.reg_1);
        },
    }

    if waits {
        return StageResult::WAIT;
    }
    match instr_type {
        InstrType::ALU(ALUType::CMP) => {
            instr.dest = Register::BF;
        },
        InstrType::Control(_) => {
            if regs.is_in_use(Register::BF) {
                return StageResult::WAIT;
            }
            instr.dest = Register::PC;
        },
        _ => {},
    }

    regs.set_in_use(instr.dest, true);
    StageResult::DONE
}

/// What the arithmetic unit computes from the two operands and the
/// immediate, in two's-complement arithmetic on 32 bits; or the fault, where
/// a quotient or remainder does not exist.
///
/// Every operation but `MOV` and `NOT` combines `a` with the sum of `b` and
/// the immediate. Shifts take the low five bits of that sum as the distance.
pub open spec fn alu_model(op: ALUType, a: i32, b: i32, imm: i32) -> Result<i32, Fault> {
    let rhs = b.wrapping_add(imm);
    match op {
        ALUType::MOV => Ok(rhs),
        ALUType::ADD => Ok(a.wrapping_add(rhs)),
        ALUType::SUB => Ok(a.wrapping_sub(rhs)),
        ALUType::IMUL => Ok(a.wrapping_mul(rhs)),
        ALUType::IDIV => match a.checked_div(rhs) {
            Some(q) => Ok(q),
            None => Err(
                if rhs == 0 {
                    Fault::DivisionByZero
                } else {
                    Fault::DivisionOverflow
                },
            ),
        },
        ALUType::AND => Ok(a & rhs),
        ALUType::OR => Ok(a | rhs),
        ALUType::XOR => Ok(a ^ rhs),
        ALUType::CMP => Ok(a.wrapping_sub(rhs)),
        ALUType::MOD => match a.checked_rem(rhs) {
            Some(r) => Ok(r),
            None => Err(
                if rhs == 0 {
                    Fault::DivisionByZero
                } else {
                    Fault::DivisionOverflow
                },
            ),
        },
        ALUType::NOT => Ok(!a.wrapping_add(imm)),
        ALUType::LSL => Ok(a.wrapping_shl(rhs as u32)),
        ALUType::LSR => Ok(a.wrapping_shr(rhs as u32)),
    }
}

/// The arithmetic unit.
pub fn alu(op: ALUType, a: i32, b: i32, imm: i32) -> (r: Result<i32, Fault>)
    ensures
        r == alu_model(op, a, b, imm),
{
    let rhs: i32 = b.wrapping_add(imm);
    match op {
        ALUType::MOV => Ok(rhs),
        ALUType::ADD => Ok(a.wrapping_add(rhs)),
        ALUType::SUB => Ok(a.wrapping_sub(rhs)),
        ALUType::IMUL => Ok(a.wrapping_mul(rhs)),
        ALUType::IDIV => match a.checked_div(rhs) {
            Some(q) => Ok(q),
            None => if rhs == 0 {
                Err(Fault::DivisionByZero)
            } else {
                Err(Fault::DivisionOverflow)
            },
        },
        ALUType::AND => Ok(a & rhs),
        ALUType::OR => Ok(a | rhs),
        ALUType::XOR => Ok(a ^ rhs),
        ALUType::CMP => Ok(a.wrapping_sub(rhs)),
        ALUType::MOD => match a.checked_rem(rhs) {
            Some(r) => Ok(r),
            None => if rhs == 0 {
                Err(Fault::DivisionByZero)
            } else {
                Err(Fault::DivisionOverflow)
            },
        },
        ALUType::NOT => Ok(!a.wrapping_add(imm)),
        ALUType::LSL => Ok(a.wrapping_shl(rhs as u32)),
        ALUType::LSR => Ok(a.wrapping_shr(rhs as u32)),
    }
}

/// The instruction with `result` as its result.
pub open spec fn with_result(instr: Instruction, result: i32) -> Instruction {
    Instruction { meta: InstrMeta { result, ..instr.meta }, ..instr }
}

/// The instruction with its write to the destination switched on or off.
pub open spec fn with_writeback(instr: Instruction, writeback: bool) -> Instruction {
    Instruction { meta: InstrMeta { writeback, ..instr.meta }, ..instr }
}

/// One cycle of Execute: the instruction and the report that it leaves.
///
/// An arithmetic instruction gets its result. A branch whose condition holds
/// of the branch flag gets its target, the first operand plus the immediate;
/// one whose condition fails will write nothing.
pub open spec fn execute_model(regs: RegFile, instr: Instruction) -> (Instruction, StageResult) {
    match instr.instr_type {
        InstrType::ALU(op) => match alu_model(op, instr.arg_1(regs), instr.arg_2(regs), instr.imm) {
            Ok(value) => (with_result(instr, value), StageResult::DONE),
            Err(fault) => (faulted(instr, fault), StageResult::HALT),
        },
        InstrType::Control(op) => if op.holds(regs.get(Register::BF)) {
            (with_result(instr, instr.arg_1(regs).wrapping_add(instr.imm)), StageResult::DONE)
        } else {
            (with_writeback(instr, false), StageResult::DONE)
        },
        _ => (instr, StageResult::DONE),
    }
}

/// Execute: computes the result of an arithmetic instruction and resolves
/// the condition of a branch. The register file is only read.
///
/// A quotient or remainder that does not exist stops the pipeline.
pub fn execute(regs: &Registers, instr: &mut Instruction) -> (result: StageResult)
    ensures
        (*final(instr), result) == execute_model(regs@, *old(instr)),
{
    match instr.instr_type {
        InstrType::ALU(op) => {
            match alu(op, instr.get_arg_1(regs), instr.get_arg_2(regs), instr.imm) {
                Ok(value) => {
                    instr.meta.result = value;
                    StageResult::DONE
                },
                Err(fault) => {
                    instr.meta.fault = Some(fault);
                    StageResult::HALT
                },
            }
        },
        InstrType::Control(op) => {
            let flag: i32 = regs.get_reg(Register::BF);
            let taken = match op {
                ControlType::BEQ => flag == 0,
                ControlType::BLT => flag < 0,
                ControlType::BGT => flag > 0,
                ControlType::BNE => flag != 0,
                ControlType::B => true,
                ControlType::BGE => flag >= 0,
                ControlType::BLE => flag <= 0,
            };
            if taken {
                instr.meta.result = instr.get_arg_1(regs).wrapping_add(instr.imm);
            } else {
                instr.meta.writeback = false;
            }
            StageResult::DONE
        },
        InstrType::Memory(_) => StageResult::DONE,
        InstrType::Interrupt(_) => StageResult::DONE,
    }
}

/// The instruction as Fetch leaves it when the word `word` has arrived.
pub open spec fn fetched_instr(instr: Instruction, word: usize) -> Instruction {
    Instruction {
        instr_raw: word as i32,
        meta: InstrMeta { initialized: true, ..instr.meta },
        ..instr
    }
}

/// One cycle of Fetch: the memory, the register file, the instruction and
/// the report that it leaves.
///
/// Fetch makes one attempt to read the word at the program counter. When
/// the word arrives it becomes the instruction's raw word and the program
/// counter moves on by four; until then nothing but the memory changes.
pub open spec fn fetch_model<M: Memory>(mem: M::Model, regs: RegFile, instr: Instruction) -> (
    M::Model,
    RegFile,
    Instruction,
    StageResult,
) {
    let pc = regs.get(Register::PC);
    let (mem, answer) = M::read_model(mem, pc as usize, StageType::Fetch, false);
    match answer {
        Some(ValueView::Value(word)) => (
            mem,
            regs.set(Register::PC, pc.wrapping_add(4)),
            fetched_instr(instr, word),
            StageResult::DONE,
        ),
        _ => (mem, regs, instr, StageResult::WAIT),
    }
}

/// Fetch: reads the next instruction word from memory.
pub fn fetch<M: Memory>(mem: &mut M, regs: &mut Registers, instr: &mut Instruction) -> (result:
    StageResult)
    requires
        M::inv(old(mem).model()),
    ensures
        (final(mem).model(), final(regs)@, *final(instr), result) == fetch_model::<M>(
            old(mem).model(),
            old(regs)@,
            *old(instr),
        ),
        M::inv(final(mem).model()),
{
    let pc: i32 = regs.get_reg(Register::PC);
    if let Some(MemoryValue::Value(value)) = mem.read(pc as usize, StageType::Fetch, false) {
        instr.instr_raw = value as i32;
        instr.meta.initialized = true;
        regs.set_reg(Register::PC, pc.wrapping_add(4));
        return StageResult::DONE;
    }
    StageResult::WAIT
}

/// Fetch reads at the program counter and nowhere else, and moves the
/// program counter exactly when it reports `DONE`.
pub proof fn lemma_fetch_reads_at_pc<M: Memory>(mem: M::Model, regs: RegFile, instr: Instruction)
    requires
        regs.wf(),
    ensures
        fetch_model::<M>(mem, regs, instr).0 == M::read_model(
            mem,
            regs.get(Register::PC) as usize,
            StageType::Fetch,
            false,
        ).0,
        fetch_model::<M>(mem, regs, instr).3 == StageResult::DONE ==> fetch_model::<M>(
            mem,
            regs,
            instr,
        ).1.get(Register::PC) == regs.get(Register::PC).wrapping_add(4),
        fetch_model::<M>(mem, regs, instr).3 != StageResult::DONE ==> fetch_model::<M>(
            mem,
            regs,
            instr,
        ).1 == regs,
{
}

/// One cycle of the Memory stage: the memory, the instruction and the report
/// that it leaves.
///
/// A load makes one attempt to read the word at the address in its second
/// operand; when the word arrives it is the instruction's result. A store
/// makes one attempt to write its first operand to that address; once
/// written, the instruction has nothing left to write back. Every other
/// instruction passes.
pub open spec fn memory_model<M: Memory>(mem: M::Model, regs: RegFile, instr: Instruction) -> (
    M::Model,
    Instruction,
    StageResult,
) {
    let addr = instr.arg_2(regs) as usize;
    match instr.instr_type {
        InstrType::Memory(MemoryType::LDR) => {
            let (mem, answer) = M::read_model(mem, addr, StageType::Memory, false);
            match answer {
                Some(ValueView::Value(word)) => (
                    mem,
                    with_result(instr, word as i32),
                    StageResult::DONE,
                ),
                _ => (mem, instr, StageResult::WAIT),
            }
        },
        InstrType::Memory(MemoryType::STR) => {
            let (mem, done) = M::write_model(
                mem,
                addr,
                ValueView::Value(instr.arg_1(regs) as usize),
                StageType::Memory,
            );
            if done {
                (mem, with_writeback(instr, false), StageResult::DONE)
            } else {
                (mem, instr, StageResult::WAIT)
            }
        },
        _ => (mem, instr, StageResult::DONE),
    }
}

/// The Memory stage: carries out loads and stores. The register file is
/// only read.
pub fn memory<M: Memory>(mem: &mut M, regs: &Registers, instr: &mut Instruction) -> (result:
    StageResult)
    requires
        M::inv(old(mem).model()),
    ensures
        (final(mem).model(), *final(instr), result) == memory_model::<M>(
            old(mem).model(),
            regs@,
            *old(instr),
        ),
        M::inv(final(mem).model()),
{
    if let InstrType::Memory(mem_type) = instr.instr_type {
        let mem_addr = instr.get_arg_2(regs) as usize;
        return match mem_type {
            MemoryType::LDR => {
                if let Some(MemoryValue::Value(response)) = mem.read(
                    mem_addr,
                    StageType::Memory,
                    false,
                ) {
                    instr.meta.result = response as i32;
                    StageResult::DONE
                } else {
                    StageResult::WAIT
                }
            },
            MemoryType::STR => {
                let val_to_store = instr.get_arg_1(regs) as usize;
                if mem.write(mem_addr, &MemoryValue::Value(val_to_store), StageType::Memory) {
                    instr.meta.writeback = false;
                    StageResult::DONE
                } else {
                    StageResult::WAIT
                }
            },
        };
    }
    StageResult::DONE
}

/// Whether an instruction that reaches Writeback redirects the processor: a
/// branch that was taken and not killed.
pub open spec fn retires_taken_branch(instr: Instruction) -> bool {
    !instr.meta.squashed && instr.meta.writeback && instr.instr_type is Control
}

/// One cycle of Writeback: the memory, the register file and the report
/// that it leaves.
///
/// A killed instruction leaves no trace. Any other stores its result in its
/// destination, unless that was switched off, and releases the destination.
/// A taken branch then releases every register and every memory level and
/// reports `SQUASH`; `HLT` reports `HALT`.
pub open spec fn writeback_model<M: Memory>(mem: M::Model, regs: RegFile, instr: Instruction) -> (
    M::Model,
    RegFile,
    StageResult,
) {
    if instr.meta.squashed {
        (mem, regs, StageResult::DONE)
    } else {
        let stored = if instr.meta.writeback {
            regs.set(instr.dest, instr.meta.result)
        } else {
            regs
        };
        let regs = stored.mark(instr.dest, false);
        if retires_taken_branch(instr) {
            (M::reset_state_model(mem), regs.released(), StageResult::SQUASH)
        } else if instr.instr_type == InstrType::Interrupt(InterruptType::HLT) {
            (mem, regs, StageResult::HALT)
        } else {
            (mem, regs, StageResult::DONE)
        }
    }
}

/// Writeback: commits the instruction to the register file.
pub fn writeback<M: Memory>(mem: &mut M, regs: &mut Registers, instr: &Instruction) -> (result:
    StageResult)
    requires
        M::inv(old(mem).model()),
    ensures
        (final(mem).model(), final(regs)@, result) == writeback_model::<M>(
            old(mem).model(),
            old(regs)@,
            *instr,
        ),
        M::inv(final(mem).model()),
{
    if instr.meta.squashed {
        return StageResult::DONE;
    }
    if instr.meta.writeback {
        regs.set_reg(instr.dest, instr.meta.result);
    }
    regs.set_in_use(instr.dest, false);

    if instr.meta.writeback {
        if let InstrType::Control(_) = instr.instr_type {
            regs.clear_in_use();
            mem.reset_state();
            return StageResult::SQUASH;
        }
    }
    if let InstrType::Interrupt(InterruptType::HLT) = instr.instr_type {
        return StageResult::HALT;
    }
    StageResult::DONE
}

/// An instruction that was killed has no effect in Writeback: the register
/// file and the memory stay as they are.
pub proof fn lemma_squashed_has_no_effect<M: Memory>(
    mem: M::Model,
    regs: RegFile,
    instr: Instruction,
)
    requires
        instr.meta.squashed,
    ensures
        writeback_model::<M>(mem, regs, instr) == (mem, regs, StageResult::DONE),
{
}

} // verus!
