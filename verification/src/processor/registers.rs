//! The register file: sixteen signed 32-bit slots and one scoreboard bit for
//! each of them.

use vstd::prelude::*;

verus! {

/// The names of the sixteen registers, in index order.
///
/// `BF` holds the branch flag that `CMP` writes, `PC` the program counter.
#[derive(Debug, Copy, Clone, PartialEq, Eq, Structural)]
pub enum Register {
    R0,
    R1,
    R2,
    R3,
    R4,
    R5,
    R6,
    R7,
    R8,
    R9,
    R10,
    R11,
    SP,
    BF,
    LR,
    PC,
}

impl Register {
    /// The position of the register in the register file.
    pub open spec fn index(self) -> int {
        match self {
            Register::R0 => 0,
            Register::R1 => 1,
            Register::R2 => 2,
            Register::R3 => 3,
            Register::R4 => 4,
            Register::R5 => 5,
            Register::R6 => 6,
            Register::R7 => 7,
            Register::R8 => 8,
            Register::R9 => 9,
            Register::R10 => 10,
            Register::R11 => 11,
            Register::SP => 12,
            Register::BF => 13,
            Register::LR => 14,
            Register::PC => 15,
        }
    }

    /// The register at a position, for positions below sixteen.
    pub open spec fn at(i: int) -> Register {
        if i == 0 {
            Register::R0
        } else if i == 1 {
            Register::R1
        } else if i == 2 {
            Register::R2
        } else if i == 3 {
            Register::R3
        } else if i == 4 {
            Register::R4
        } else if i == 5 {
            Register::R5
        } else if i == 6 {
            Register::R6
        } else if i == 7 {
            Register::R7
        } else if i == 8 {
            Register::R8
        } else if i == 9 {
            Register::R9
        } else if i == 10 {
            Register::R10
        } else if i == 11 {
            Register::R11
        } else if i == 12 {
            Register::SP
        } else if i == 13 {
            Register::BF
        } else if i == 14 {
            Register::LR
        } else {
            Register::PC
        }
    }

    /// The register named by a four-bit field; `None` outside `0..16`.
    pub fn from_i32(reg: i32) -> (r: Option<Register>)
        ensures
            r is Some <==> 0 <= reg < 16,
            r is Some ==> r == Some(Register::at(reg as int)),
            r matches Some(x) ==> x.index() == reg,
    {
        match reg {
            0 => Some(Register::R0),
            1 => Some(Register::R1),
            2 => Some(Register::R2),
            3 => Some(Register::R3),
            4 => Some(Register::R4),
            5 => Some(Register::R5),
            6 => Some(Register::R6),
            7 => Some(Register::R7),
            8 => Some(Register::R8),
            9 => Some(Register::R9),
            10 => Some(Register::R10),
            11 => Some(Register::R11),
            12 => Some(Register::SP),
            13 => Some(Register::BF),
            14 => Some(Register::LR),
            15 => Some(Register::PC),
            _ => None,
        }
    }

    /// The position of the register, as an array index.
    pub fn slot(self) -> (i: usize)
        ensures
            i == self.index(),
            i < 16,
    {
        match self {
            Register::R0 => 0,
            Register::R1 => 1,
            Register::R2 => 2,
            Register::R3 => 3,
            Register::R4 => 4,
            Register::R5 => 5,
            Register::R6 => 6,
            Register::R7 => 7,
            Register::R8 => 8,
            Register::R9 => 9,
            Register::R10 => 10,
            Register::R11 => 11,
            Register::SP => 12,
            Register::BF => 13,
            Register::LR => 14,
            Register::PC => 15,
        }
    }
}

/// `index` and `at` are inverse to each other on the sixteen positions.
pub proof fn lemma_register_index(r: Register)
    ensures
        0 <= r.index() < 16,
        Register::at(r.index()) == r,
{
}

/// The register file as mathematics: the sixteen values and the sixteen
/// scoreboard bits, each as a sequence indexed by `Register::index`.
pub struct RegFile {
    pub values: Seq<i32>,
    pub in_use: Seq<bool>,
}

impl RegFile {
    /// Both sequences have one entry for each register.
    pub open spec fn wf(self) -> bool {
        self.values.len() == 16 && self.in_use.len() == 16
    }

    /// The value held by `reg`.
    pub open spec fn get(self, reg: Register) -> i32 {
        self.values[reg.index()]
    }

    /// The file with `value` in `reg` and everything else as before.
    pub open spec fn set(self, reg: Register, value: i32) -> RegFile {
        RegFile { values: self.values.update(reg.index(), value), ..self }
    }

    /// Whether an instruction in flight has reserved `reg`.
    pub open spec fn busy(self, reg: Register) -> bool {
        self.in_use[reg.index()]
    }

    /// The file with the scoreboard bit of `reg` set to `value`.
    pub open spec fn mark(self, reg: Register, value: bool) -> RegFile {
        RegFile { in_use: self.in_use.update(reg.index(), value), ..self }
    }

    /// The file with the same values and an empty scoreboard.
    pub open spec fn released(self) -> RegFile {
        RegFile { in_use: Seq::new(16, |i: int| false), ..self }
    }

    /// The file of a processor that has not run: all zero, nothing reserved.
    pub open spec fn zero() -> RegFile {
        RegFile { values: Seq::new(16, |i: int| 0i32), in_use: Seq::new(16, |i: int| false) }
    }
}

/// Sixteen signed 32-bit registers with one scoreboard bit each.
#[derive(Debug)]
pub struct Registers {
    pub registers: [i32; 16],
    pub in_use: [bool; 16],
}

impl View for Registers {
    type V = RegFile;

    open spec fn view(&self) -> RegFile {
        RegFile { values: self.registers@, in_use: self.in_use@ }
    }
}

impl Default for Registers {
    fn default() -> (r: Registers)
        ensures
            r@ == RegFile::zero(),
    {
        let r = Registers { registers: [0; 16], in_use: [false; 16] };
        assert(r.registers@ =~= RegFile::zero().values);
        assert(r.in_use@ =~= RegFile::zero().in_use);
        r
    }
}

impl Registers {
    pub fn get_reg(&self, reg: Register) -> (value: i32)
        ensures
            value == self@.get(reg),
    {
        self.registers[reg.slot()]
    }

    pub fn set_reg(&mut self, reg: Register, value: i32)
        ensures
            final(self)@ == old(self)@.set(reg, value),
    {
        self.registers[reg.slot()] = value;
    }

    pub fn set_in_use(&mut self, reg: Register, value: bool)
        ensures
            final(self)@ == old(self)@.mark(reg, value),
    {
        self.in_use[reg.slot()] = value;
    }

    pub fn is_in_use(&self, reg: Register) -> (busy: bool)
        ensures
            busy == self@.busy(reg),
    {
        self.in_use[reg.slot()]
    }

    /// Releases every reservation and keeps the values.
    pub fn clear_in_use(&mut self)
        ensures
            final(self)@ == old(self)@.released(),
    {
        self.in_use = [false; 16];
        assert(self.in_use@ =~= old(self)@.released().in_use);
    }

    /// Zeroes the values and releases every reservation.
    pub fn reset(&mut self)
        ensures
            final(self)@ == RegFile::zero(),
    {
        self.clear_in_use();
        self.registers = [0; 16];
        assert(self.registers@ =~= RegFile::zero().values);
    }
}

} // verus!
