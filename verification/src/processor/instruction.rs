//! The decoded instruction record and the enumerations of the instruction
//! word's fields.

use super::registers::{RegFile, Register, Registers};
use vstd::prelude::*;

verus! {

/// The class of an instruction together with its class-specific opcode.
#[derive(Clone, Copy, Debug, PartialEq, Eq, Structural)]
pub enum InstrType {
    ALU(ALUType),
    Memory(MemoryType),
    Control(ControlType),
    Interrupt(InterruptType),
}

/// The layout of the operand bits of an instruction word.
#[derive(Clone, Copy, Debug, PartialEq, Eq, Structural)]
pub enum AddrMode {
    RegReg,
    RegRegOff,
    RegImm,
    Imm,
    Reg,
}

impl AddrMode {
    /// The three-bit field that stands for the mode.
    pub open spec fn code(self) -> int {
        match self {
            AddrMode::RegReg => 0,
            AddrMode::RegRegOff => 1,
            AddrMode::RegImm => 2,
            AddrMode::Imm => 3,
            AddrMode::Reg => 4,
        }
    }

    /// The mode that a field value stands for, if any.
    pub open spec fn of(code: int) -> Option<AddrMode> {
        if code == 0 {
            Some(AddrMode::RegReg)
        } else if code == 1 {
            Some(AddrMode::RegRegOff)
        } else if code == 2 {
            Some(AddrMode::RegImm)
        } else if code == 3 {
            Some(AddrMode::Imm)
        } else if code == 4 {
            Some(AddrMode::Reg)
        } else {
            None
        }
    }

    pub fn from_i32(mode: i32) -> (r: Option<AddrMode>)
        ensures
            r == AddrMode::of(mode as int),
    {
        match mode {
            0b000 => Some(AddrMode::RegReg),
            0b001 => Some(AddrMode::RegRegOff),
            0b010 => Some(AddrMode::RegImm),
            0b011 => Some(AddrMode::Imm),
            0b100 => Some(AddrMode::Reg),
            _ => None,
        }
    }
}

#[derive(Clone, Copy, Debug, PartialEq, Eq, Structural)]
pub enum ALUType {
    MOV,
    ADD,
    SUB,
    IMUL,
    IDIV,
    AND,
    OR,
    XOR,
    CMP,
    MOD,
    NOT,
    LSL,
    LSR,
}

impl ALUType {
    /// The four-bit opcode of the operation.
    pub open spec fn code(self) -> int {
        match self {
            ALUType::MOV => 0,
            ALUType::ADD => 1,
            ALUType::SUB => 2,
            ALUType::IMUL => 3,
            ALUType::IDIV => 4,
            ALUType::AND => 5,
            ALUType::OR => 6,
            ALUType::XOR => 7,
            ALUType::CMP => 8,
            ALUType::MOD => 9,
            ALUType::NOT => 10,
            ALUType::LSL => 11,
            ALUType::LSR => 12,
        }
    }

    /// The operation that an opcode stands for, if any.
    pub open spec fn of(code: int) -> Option<ALUType> {
        if code == 0 {
            Some(ALUType::MOV)
        } else if code == 1 {
            Some(ALUType::ADD)
        } else if code == 2 {
            Some(ALUType::SUB)
        } else if code == 3 {
            Some(ALUType::IMUL)
        } else if code == 4 {
            Some(ALUType::IDIV)
        } else if code == 5 {
            Some(ALUType::AND)
        } else if code == 6 {
            Some(ALUType::OR)
        } else if code == 7 {
            Some(ALUType::XOR)
        } else if code == 8 {
            Some(ALUType::CMP)
        } else if code == 9 {
            Some(ALUType::MOD)
        } else if code == 10 {
            Some(ALUType::NOT)
        } else if code == 11 {
            Some(ALUType::LSL)
        } else if code == 12 {
            Some(ALUType::LSR)
        } else {
            None
        }
    }

    pub fn from_i32(alu_type: i32) -> (r: Option<ALUType>)
        ensures
            r == ALUType::of(alu_type as int),
    {
        match alu_type {
            0b0000 => Some(ALUType::MOV),
            0b0001 => Some(ALUType::ADD),
            0b0010 => Some(ALUType::SUB),
            0b0011 => Some(ALUType::IMUL),
            0b0100 => Some(ALUType::IDIV),
            0b0101 => Some(ALUType::AND),
            0b0110 => Some(ALUType::OR),
            0b0111 => Some(ALUType::XOR),
            0b1000 => Some(ALUType::CMP),
            0b1001 => Some(ALUType::MOD),
            0b1010 => Some(ALUType::NOT),
            0b1011 => Some(ALUType::LSL),
            0b1100 => Some(ALUType::LSR),
            _ => None,
        }
    }
}

#[derive(Clone, Copy, Debug, PartialEq, Eq, Structural)]
pub enum MemoryType {
    LDR,
    STR,
}

impl MemoryType {
    pub open spec fn code(self) -> int {
        match self {
            MemoryType::LDR => 0,
            MemoryType::STR => 1,
        }
    }

    pub open spec fn of(code: int) -> Option<MemoryType> {
        if code == 0 {
            Some(MemoryType::LDR)
        } else if code == 1 {
            Some(MemoryType::STR)
        } else {
            None
        }
    }

    pub fn from_i32(mem_type: i32) -> (r: Option<MemoryType>)
        ensures
            r == MemoryType::of(mem_type as int),
    {
        match mem_type {
            0b0000 => Some(MemoryType::LDR),
            0b0001 => Some(MemoryType::STR),
            _ => None,
        }
    }
}

#[derive(Clone, Copy, Debug, PartialEq, Eq, Structural)]
pub enum ControlType {
    BEQ,
    BLT,
    BGT,
    BNE,
    B,
    BGE,
    BLE,
}

impl ControlType {
    pub open spec fn code(self) -> int {
        match self {
            ControlType::BEQ => 0,
            ControlType::BLT => 1,
            ControlType::BGT => 2,
            ControlType::BNE => 3,
            ControlType::B => 4,
            ControlType::BGE => 5,
            ControlType::BLE => 6,
        }
    }

    pub open spec fn of(code: int) -> Option<ControlType> {
        if code == 0 {
            Some(ControlType::BEQ)
        } else if code == 1 {
            Some(ControlType::BLT)
        } else if code == 2 {
            Some(ControlType::BGT)
        } else if code == 3 {
            Some(ControlType::BNE)
        } else if code == 4 {
            Some(ControlType::B)
        } else if code == 5 {
            Some(ControlType::BGE)
        } else if code == 6 {
            Some(ControlType::BLE)
        } else {
            None
        }
    }

    pub fn from_i32(ctrl_type: i32) -> (r: Option<ControlType>)
        ensures
            r == ControlType::of(ctrl_type as int),
    {
        match ctrl_type {
            0b0000 => Some(ControlType::BEQ),
            0b0001 => Some(ControlType::BLT),
            0b0010 => Some(ControlType::BGT),
            0b0011 => Some(ControlType::BNE),
            0b0100 => Some(ControlType::B),
            0b0101 => Some(ControlType::BGE),
            0b0110 => Some(ControlType::BLE),
            _ => None,
        }
    }

    /// Whether the branch is taken when the branch flag holds `flag`.
    pub open spec fn holds(self, flag: i32) -> bool {
        match self {
            ControlType::BEQ => flag == 0,
            ControlType::BLT => flag < 0,
            ControlType::BGT => flag > 0,
            ControlType::BNE => flag != 0,
            ControlType::B => true,
            ControlType::BGE => flag >= 0,
            ControlType::BLE => flag <= 0,
        }
    }
}

#[derive(Clone, Copy, Debug, PartialEq, Eq, Structural)]
pub enum InterruptType {
    NOP,
    HLT,
}

impl InterruptType {
    pub open spec fn code(self) -> int {
        match self {
            InterruptType::NOP => 0,
            InterruptType::HLT => 1,
        }
    }

    pub open spec fn of(code: int) -> Option<InterruptType> {
        if code == 0 {
            Some(InterruptType::NOP)
        } else if code == 1 {
            Some(InterruptType::HLT)
        } else {
            None
        }
    }

    pub fn from_i32(int_type: i32) -> (r: Option<InterruptType>)
        ensures
            r == InterruptType::of(int_type as int),
    {
        match int_type {
            0b0000 => Some(InterruptType::NOP),
            0b0001 => Some(InterruptType::HLT),
            _ => None,
        }
    }
}

impl InstrType {
    /// The three-bit class field of the instruction word.
    pub open spec fn class_code(self) -> int {
        match self {
            InstrType::ALU(_) => 0,
            InstrType::Memory(_) => 1,
            InstrType::Control(_) => 2,
            InstrType::Interrupt(_) => 3,
        }
    }

    /// The four-bit opcode field of the instruction word.
    pub open spec fn opcode(self) -> int {
        match self {
            InstrType::ALU(op) => op.code(),
            InstrType::Memory(op) => op.code(),
            InstrType::Control(op) => op.code(),
            InstrType::Interrupt(op) => op.code(),
        }
    }

    /// The instruction type that a class field and an opcode field name
    /// together, if both are in their enumerated ranges.
    pub open spec fn of(class: int, opcode: int) -> Option<InstrType> {
        if class == 0 {
            match ALUType::of(opcode) {
                Some(op) => Some(InstrType::ALU(op)),
                None => None,
            }
        } else if class == 1 {
            match MemoryType::of(opcode) {
                Some(op) => Some(InstrType::Memory(op)),
                None => None,
            }
        } else if class == 2 {
            match ControlType::of(opcode) {
                Some(op) => Some(InstrType::Control(op)),
                None => None,
            }
        } else if class == 3 {
            match InterruptType::of(opcode) {
                Some(op) => Some(InstrType::Interrupt(op)),
                None => None,
            }
        } else {
            None
        }
    }
}

impl InstrType {
    /// The class field and the opcode field of the instruction word.
    pub fn fields(self) -> (fields: (u32, u32))
        ensures
            fields.0 == self.class_code(),
            fields.1 == self.opcode(),
    {
        match self {
            InstrType::ALU(op) => (
                0,
                match op {
                    ALUType::MOV => 0,
                    ALUType::ADD => 1,
                    ALUType::SUB => 2,
                    ALUType::IMUL => 3,
                    ALUType::IDIV => 4,
                    ALUType::AND => 5,
                    ALUType::OR => 6,
                    ALUType::XOR => 7,
                    ALUType::CMP => 8,
                    ALUType::MOD => 9,
                    ALUType::NOT => 10,
                    ALUType::LSL => 11,
                    ALUType::LSR => 12,
                },
            ),
            InstrType::Memory(op) => (
                1,
                match op {
                    MemoryType::LDR => 0,
                    MemoryType::STR => 1,
                },
            ),
            InstrType::Control(op) => (
                2,
                match op {
                    ControlType::BEQ => 0,
                    ControlType::BLT => 1,
                    ControlType::BGT => 2,
                    ControlType::BNE => 3,
                    ControlType::B => 4,
                    ControlType::BGE => 5,
                    ControlType::BLE => 6,
                },
            ),
            InstrType::Interrupt(op) => (
                3,
                match op {
                    InterruptType::NOP => 0,
                    InterruptType::HLT => 1,
                },
            ),
        }
    }
}

/// Every instruction type is the one that its own two fields name.
pub proof fn lemma_instr_type_codes(t: InstrType)
    ensures
        0 <= t.class_code() < 4,
        0 <= t.opcode() < 13,
        InstrType::of(t.class_code(), t.opcode()) == Some(t),
{
}

/// Every addressing mode is the one that its own field names.
pub proof fn lemma_addr_mode_codes(m: AddrMode)
    ensures
        0 <= m.code() < 5,
        AddrMode::of(m.code()) == Some(m),
{
}

/// A condition that ends the simulation: the word in flight is no
/// instruction, or the instruction cannot be carried out.
#[derive(Clone, Copy, Debug, PartialEq, Eq, Structural)]
pub enum Fault {
    /// The class field of the word is outside `0..4`.
    InvalidClass,
    /// The opcode field is outside the range of the word's class.
    InvalidOpcode,
    /// The addressing-mode field is outside `0..5`.
    InvalidAddrMode,
    /// `IDIV` or `MOD` with a divisor of zero.
    DivisionByZero,
    /// `IDIV` or `MOD` of the least integer by minus one.
    DivisionOverflow,
}

/// What the pipeline records about an instruction besides its fields.
#[derive(Debug, Clone, Copy, PartialEq, Eq)]
pub struct InstrMeta {
    /// Whether Writeback stores `result` into the destination.
    pub writeback: bool,
    /// Whether a taken branch ahead of the instruction has killed it.
    pub squashed: bool,
    pub result: i32,
    /// Whether Fetch has read the instruction's word.
    pub initialized: bool,
    /// The fault that the instruction ran into, if it did.
    pub fault: Option<Fault>,
}

/// An instruction in flight.
#[derive(Debug, Clone, Copy, PartialEq, Eq)]
pub struct Instruction {
    pub instr_raw: i32,
    pub instr_type: InstrType,
    pub addr_mode: AddrMode,
    pub reg_1: Register,
    pub reg_2: Register,
    pub dest: Register,
    pub imm: i32,
    pub meta: InstrMeta,
}

impl Instruction {
    /// The placeholder that Fetch fills in: no word read yet.
    pub open spec fn blank() -> Instruction {
        Instruction {
            instr_raw: 0,
            instr_type: InstrType::ALU(ALUType::MOV),
            addr_mode: AddrMode::RegReg,
            reg_1: Register::R0,
            reg_2: Register::R0,
            dest: Register::R0,
            imm: 0,
            meta: InstrMeta {
                writeback: true,
                squashed: false,
                result: 0,
                initialized: false,
                fault: None,
            },
        }
    }

    pub fn new() -> (instr: Instruction)
        ensures
            instr == Instruction::blank(),
    {
        Instruction {
            instr_raw: 0,
            instr_type: InstrType::ALU(ALUType::MOV),
            addr_mode: AddrMode::RegReg,
            reg_1: Register::R0,
            reg_2: Register::R0,
            dest: Register::R0,
            imm: 0,
            meta: InstrMeta {
                writeback: true,
                squashed: false,
                result: 0,
                initialized: false,
                fault: None,
            },
        }
    }

    /// The first operand: the value of `reg_1` in every mode that names a
    /// first register, zero in `Imm`.
    pub open spec fn arg_1(self, regs: RegFile) -> i32 {
        match self.addr_mode {
            AddrMode::Imm => 0,
            _ => regs.get(self.reg_1),
        }
    }

    /// The second operand: the value of `reg_2` in the two modes that name a
    /// second register, zero in the others.
    pub open spec fn arg_2(self, regs: RegFile) -> i32 {
        match self.addr_mode {
            AddrMode::RegReg => regs.get(self.reg_2),
            AddrMode::RegRegOff => regs.get(self.reg_2),
            _ => 0,
        }
    }

    pub fn get_arg_1(&self, regs: &Registers) -> (value: i32)
        ensures
            value == self.arg_1(regs@),
    {
        match self.addr_mode {
            AddrMode::RegReg => regs.get_reg(self.reg_1),
            AddrMode::RegRegOff => regs.get_reg(self.reg_1),
            AddrMode::RegImm => regs.get_reg(self.reg_1),
            AddrMode::Imm => 0,
            AddrMode::Reg => regs.get_reg(self.reg_1),
        }
    }

    pub fn get_arg_2(&self, regs: &Registers) -> (value: i32)
        ensures
            value == self.arg_2(regs@),
    {
        match self.addr_mode {
            AddrMode::RegReg => regs.get_reg(self.reg_2),
            AddrMode::RegRegOff => regs.get_reg(self.reg_2),
            AddrMode::RegImm => 0,
            AddrMode::Imm => 0,
            AddrMode::Reg => 0,
        }
    }
}

} // verus!
