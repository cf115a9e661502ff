//! The assembler: from lines of text to instruction words.
//!
//! A line is a mnemonic followed by a list of operands with commas between
//! them. Letters may be of either case, and white space after the mnemonic
//! counts for nothing. The text is read as bytes.

use crate::processor::instruction::{
    ALUType, AddrMode, ControlType, InstrType, InterruptType, MemoryType,
};
use crate::processor::instruction::{lemma_addr_mode_codes, lemma_instr_type_codes, Instruction};
use crate::processor::registers::{lemma_register_index, Register};
use crate::processor::stages::decoded;
use vstd::prelude::*;
use vstd::string::StringSliceAdditionalSpecFns;

verus! {

/// Why a line is no instruction.
#[derive(Clone, Copy, Debug, PartialEq, Eq, Structural)]
pub enum ParseError {
    /// The line does not begin with a mnemonic.
    UnknownMnemonic,
    /// An operand is neither the name of a register nor a number.
    InvalidOperand,
    /// A number does not fit in 32 bits.
    ImmediateOutOfRange,
    /// The operands are none of: nothing, a register, a number, two
    /// registers, a register and a number.
    UnsupportedOperands,
}

/// The first line of a text that is no instruction, counted from zero, and
/// why it is none.
#[derive(Clone, Copy, Debug, PartialEq, Eq, Structural)]
pub struct AssembleError {
    pub line: usize,
    pub error: ParseError,
}

/// One operand of an instruction.
#[derive(Clone, Copy, Debug, PartialEq, Eq, Structural)]
pub enum Operand {
    Reg(Register),
    Imm(u32),
}

/// The byte with a small letter made capital.
pub open spec fn upper(b: u8) -> u8 {
    if 'a' as u8 <= b <= 'z' as u8 {
        (b - 32) as u8
    } else {
        b
    }
}

/// Space, tab, line feed, vertical tab, form feed and carriage return.
pub open spec fn is_space(b: u8) -> bool {
    b == ' ' as u8 || 9 <= b <= 13
}

pub open spec fn is_digit(b: u8) -> bool {
    '0' as u8 <= b <= '9' as u8
}

/// A digit of a hexadecimal number; the letters are capital.
pub open spec fn is_hex_digit(b: u8) -> bool {
    is_digit(b) || 'A' as u8 <= b <= 'F' as u8
}

/// The value of a hexadecimal digit.
pub open spec fn hex_digit_value(b: u8) -> nat {
    if is_digit(b) {
        (b - '0' as u8) as nat
    } else {
        (b - 'A' as u8 + 10) as nat
    }
}

/// The text with every small letter made capital.
pub open spec fn uppercase(text: Seq<u8>) -> Seq<u8> {
    text.map_values(|b: u8| upper(b))
}

/// The text without its white space.
pub open spec fn without_spaces(text: Seq<u8>) -> Seq<u8>
    decreases text.len(),
{
    if text.len() == 0 {
        text
    } else if is_space(text.last()) {
        without_spaces(text.drop_last())
    } else {
        without_spaces(text.drop_last()).push(text.last())
    }
}

/// The pieces of a text between the occurrences of `sep`: one more piece
/// than there are occurrences.
pub open spec fn split(text: Seq<u8>, sep: u8) -> Seq<Seq<u8>>
    decreases text.len(),
{
    if text.len() == 0 {
        seq![Seq::empty()]
    } else {
        let before = split(text.drop_last(), sep);
        if text.last() == sep {
            before.push(Seq::empty())
        } else {
            before.update(before.len() - 1, before.last().push(text.last()))
        }
    }
}

/// Whether `text` begins with `word`.
pub open spec fn starts(text: Seq<u8>, word: Seq<u8>) -> bool {
    word.len() <= text.len() && text.subrange(0, word.len() as int) == word
}

/// The arithmetic mnemonic that a line in capitals begins with, as the
/// instruction type it names and its length.
pub open spec fn alu_mnemonic(text: Seq<u8>) -> Option<(InstrType, usize)> {
    if starts(text, ['M' as u8, 'O' as u8, 'V' as u8]@) {
        Some((InstrType::ALU(ALUType::MOV), 3))
    } else if starts(text, ['A' as u8, 'D' as u8, 'D' as u8]@) {
        Some((InstrType::ALU(ALUType::ADD), 3))
    } else if starts(text, ['S' as u8, 'U' as u8, 'B' as u8]@) {
        Some((InstrType::ALU(ALUType::SUB), 3))
    } else if starts(text, ['I' as u8, 'M' as u8, 'U' as u8, 'L' as u8]@) {
        Some((InstrType::ALU(ALUType::IMUL), 4))
    } else if starts(text, ['I' as u8, 'D' as u8, 'I' as u8, 'V' as u8]@) {
        Some((InstrType::ALU(ALUType::IDIV), 4))
    } else if starts(text, ['A' as u8, 'N' as u8, 'D' as u8]@) {
        Some((InstrType::ALU(ALUType::AND), 3))
    } else if starts(text, ['O' as u8, 'R' as u8]@) {
        Some((InstrType::ALU(ALUType::OR), 2))
    } else if starts(text, ['X' as u8, 'O' as u8, 'R' as u8]@) {
        Some((InstrType::ALU(ALUType::XOR), 3))
    } else if starts(text, ['C' as u8, 'M' as u8, 'P' as u8]@) {
        Some((InstrType::ALU(ALUType::CMP), 3))
    } else if starts(text, ['M' as u8, 'O' as u8, 'D' as u8]@) {
        Some((InstrType::ALU(ALUType::MOD), 3))
    } else if starts(text, ['N' as u8, 'O' as u8, 'T' as u8]@) {
        Some((InstrType::ALU(ALUType::NOT), 3))
    } else if starts(text, ['L' as u8, 'S' as u8, 'L' as u8]@) {
        Some((InstrType::ALU(ALUType::LSL), 3))
    } else if starts(text, ['L' as u8, 'S' as u8, 'R' as u8]@) {
        Some((InstrType::ALU(ALUType::LSR), 3))
    } else {
        None
    }
}

/// The same for loads and stores.
pub open spec fn memory_mnemonic(text: Seq<u8>) -> Option<(InstrType, usize)> {
    if starts(text, ['L' as u8, 'D' as u8, 'R' as u8]@) {
        Some((InstrType::Memory(MemoryType::LDR), 3))
    } else if starts(text, ['S' as u8, 'T' as u8, 'R' as u8]@) {
        Some((InstrType::Memory(MemoryType::STR), 3))
    } else {
        None
    }
}

/// The same for branches. `B` comes after the branches that begin with
/// it.
pub open spec fn control_mnemonic(text: Seq<u8>) -> Option<(InstrType, usize)> {
    if starts(text, ['B' as u8, 'E' as u8, 'Q' as u8]@) {
        Some((InstrType::Control(ControlType::BEQ), 3))
    } else if starts(text, ['B' as u8, 'L' as u8, 'T' as u8]@) {
        Some((InstrType::Control(ControlType::BLT), 3))
    } else if starts(text, ['B' as u8, 'G' as u8, 'T' as u8]@) {
        Some((InstrType::Control(ControlType::BGT), 3))
    } else if starts(text, ['B' as u8, 'N' as u8, 'E' as u8]@) {
        Some((InstrType::Control(ControlType::BNE), 3))
    } else if starts(text, ['B' as u8, 'G' as u8, 'E' as u8]@) {
        Some((InstrType::Control(ControlType::BGE), 3))
    } else if starts(text, ['B' as u8, 'L' as u8, 'E' as u8]@) {
        Some((InstrType::Control(ControlType::BLE), 3))
    } else if starts(text, ['B' as u8]@) {
        Some((InstrType::Control(ControlType::B), 1))
    } else {
        None
    }
}

/// The same for `NOP` and `HLT`.
pub open spec fn interrupt_mnemonic(text: Seq<u8>) -> Option<(InstrType, usize)> {
    if starts(text, ['N' as u8, 'O' as u8, 'P' as u8]@) {
        Some((InstrType::Interrupt(InterruptType::NOP), 3))
    } else if starts(text, ['H' as u8, 'L' as u8, 'T' as u8]@) {
        Some((InstrType::Interrupt(InterruptType::HLT), 3))
    } else {
        None
    }
}

/// The mnemonic that a line in capitals begins with: the first that fits,
/// arithmetic before memory before branches before interrupts.
pub open spec fn mnemonic_of(text: Seq<u8>) -> Option<(InstrType, usize)> {
    if alu_mnemonic(text) is Some {
        alu_mnemonic(text)
    } else if memory_mnemonic(text) is Some {
        memory_mnemonic(text)
    } else if control_mnemonic(text) is Some {
        control_mnemonic(text)
    } else {
        interrupt_mnemonic(text)
    }
}

/// The register that an operand in capitals names: `R0` to `R11`, `SP`,
/// `BF`, `LR` or `PC`, and nothing after the name.
pub open spec fn register_of(token: Seq<u8>) -> Option<Register> {
    if token.len() == 2 && token[0] == 'R' as u8 && is_digit(token[1]) {
        Some(Register::at(token[1] - '0' as u8))
    } else if token.len() == 3 && token[0] == 'R' as u8 && token[1] == '1' as u8 && (token[2]
        == '0' as u8 || token[2] == '1' as u8) {
        Some(Register::at(10 + token[2] - '0' as u8))
    } else if token == ['S' as u8, 'P' as u8]@ {
        Some(Register::SP)
    } else if token == ['B' as u8, 'F' as u8]@ {
        Some(Register::BF)
    } else if token == ['L' as u8, 'R' as u8]@ {
        Some(Register::LR)
    } else if token == ['P' as u8, 'C' as u8]@ {
        Some(Register::PC)
    } else {
        None
    }
}

/// Whether an operand is a decimal number: one digit or more.
pub open spec fn is_decimal(token: Seq<u8>) -> bool {
    token.len() >= 1 && forall|i: int| 0 <= i < token.len() ==> is_digit(#[trigger] token[i])
}

/// The value of a sequence of decimal digits.
pub open spec fn decimal_value(digits: Seq<u8>) -> nat
    decreases digits.len(),
{
    if digits.len() == 0 {
        0
    } else {
        decimal_value(digits.drop_last()) * 10 + (digits.last() - '0' as u8) as nat
    }
}

/// Whether an operand in capitals is a hexadecimal number: `0X`, then one
/// digit or more, with any number of underscores after each digit.
pub open spec fn is_hex(token: Seq<u8>) -> bool {
    &&& token.len() >= 3
    &&& token[0] == '0' as u8
    &&& token[1] == 'X' as u8
    &&& is_hex_digit(token[2])
    &&& forall|i: int|
        2 <= i < token.len() ==> is_hex_digit(#[trigger] token[i]) || token[i] == '_' as u8
}

/// The value of a sequence of hexadecimal digits and underscores.
pub open spec fn hex_value(digits: Seq<u8>) -> nat
    decreases digits.len(),
{
    if digits.len() == 0 {
        0
    } else if digits.last() == '_' as u8 {
        hex_value(digits.drop_last())
    } else {
        hex_value(digits.drop_last()) * 16 + hex_digit_value(digits.last())
    }
}

/// The value of an operand that is a number.
pub open spec fn number_of(token: Seq<u8>) -> Option<nat> {
    if is_hex(token) {
        Some(hex_value(token.subrange(2, token.len() as int)))
    } else if is_decimal(token) {
        Some(decimal_value(token))
    } else {
        None
    }
}

/// What an operand in capitals stands for.
pub open spec fn operand_of(token: Seq<u8>) -> Result<Operand, ParseError> {
    match register_of(token) {
        Some(reg) => Ok(Operand::Reg(reg)),
        None => match number_of(token) {
            None => Err(ParseError::InvalidOperand),
            Some(value) => if value <= u32::MAX {
                Ok(Operand::Imm(value as u32))
            } else {
                Err(ParseError::ImmediateOutOfRange)
            },
        },
    }
}

/// What a list of operands stands for; the error of the first operand that
/// has one.
pub open spec fn operands_of(tokens: Seq<Seq<u8>>) -> Result<Seq<Operand>, ParseError>
    decreases tokens.len(),
{
    if tokens.len() == 0 {
        Ok(Seq::empty())
    } else {
        match operands_of(tokens.drop_last()) {
            Err(error) => Err(error),
            Ok(operands) => match operand_of(tokens.last()) {
                Err(error) => Err(error),
                Ok(operand) => Ok(operands.push(operand)),
            },
        }
    }
}

/// The operands that follow a mnemonic: none where nothing but white space
/// follows, else the pieces between the commas.
pub open spec fn operand_list(text: Seq<u8>) -> Result<Seq<Operand>, ParseError> {
    if without_spaces(text).len() == 0 {
        Ok(Seq::empty())
    } else {
        operands_of(split(without_spaces(text), ',' as u8))
    }
}

/// The instruction word with the given fields: class in bits 31..29, opcode
/// in 28..25, addressing mode in 24..22, first register in 21..18, second
/// register in 17..14, immediate in the low bits.
pub open spec fn pack(class: u32, opcode: u32, mode: u32, reg_1: u32, reg_2: u32, imm: u32) -> u32 {
    class << 29 | opcode << 25 | mode << 22 | reg_1 << 18 | reg_2 << 14 | imm
}

/// The addressing mode that a list of operands calls for: `RegReg` for two
/// registers and for no operand at all, `RegImm` for a register and a
/// number, `Imm` for a number, `Reg` for a register.
pub open spec fn mode_of(operands: Seq<Operand>) -> Option<AddrMode> {
    if operands.len() == 0 {
        Some(AddrMode::RegReg)
    } else if operands.len() == 1 {
        match operands[0] {
            Operand::Imm(_) => Some(AddrMode::Imm),
            Operand::Reg(_) => Some(AddrMode::Reg),
        }
    } else if operands.len() == 2 && operands[0] is Reg {
        match operands[1] {
            Operand::Reg(_) => Some(AddrMode::RegReg),
            Operand::Imm(_) => Some(AddrMode::RegImm),
        }
    } else {
        None
    }
}

/// The word of an instruction with the given operands. An immediate is cut
/// to the width of its field: twelve bits beside a register, twenty-two
/// alone.
pub open spec fn encoded(t: InstrType, operands: Seq<Operand>) -> Result<u32, ParseError> {
    let class = t.class_code() as u32;
    let opcode = t.opcode() as u32;
    match mode_of(operands) {
        None => Err(ParseError::UnsupportedOperands),
        Some(mode) => Ok(
            match mode {
                AddrMode::Imm => pack(class, opcode, 3, 0, 0, operands[0]->Imm_0 & 0x3FFFFF),
                AddrMode::Reg => pack(class, opcode, 4, operands[0]->Reg_0.index() as u32, 0, 0),
                AddrMode::RegImm => pack(
                    class,
                    opcode,
                    2,
                    operands[0]->Reg_0.index() as u32,
                    0,
                    operands[1]->Imm_0 & 0xFFF,
                ),
                _ => if operands.len() == 0 {
                    pack(class, opcode, 0, 0, 0, 0)
                } else {
                    pack(
                        class,
                        opcode,
                        0,
                        operands[0]->Reg_0.index() as u32,
                        operands[1]->Reg_0.index() as u32,
                        0,
                    )
                },
            },
        ),
    }
}

/// The word of a line, or why the line is no instruction.
pub open spec fn line_word(line: Seq<u8>) -> Result<u32, ParseError> {
    let text = uppercase(line);
    match mnemonic_of(text) {
        None => Err(ParseError::UnknownMnemonic),
        Some((t, len)) => match operand_list(text.subrange(len as int, text.len() as int)) {
            Err(error) => Err(error),
            Ok(operands) => encoded(t, operands),
        },
    }
}

/// The words of some lines, or the first line that is no instruction.
pub open spec fn lines_words(lines: Seq<Seq<u8>>) -> Result<Seq<u32>, AssembleError>
    decreases lines.len(),
{
    if lines.len() == 0 {
        Ok(Seq::empty())
    } else {
        match lines_words(lines.drop_last()) {
            Err(error) => Err(error),
            Ok(words) => match line_word(lines.last()) {
                Err(error) => Err(AssembleError { line: (lines.len() - 1) as usize, error }),
                Ok(word) => Ok(words.push(word)),
            },
        }
    }
}

/// The program of a text: one word for each of its lines, the lines being
/// the pieces between the line feeds.
pub open spec fn assembled(input: Seq<u8>) -> Result<Seq<u32>, AssembleError> {
    lines_words(split(input, '\n' as u8))
}

/// The views of a sequence of byte vectors.
pub open spec fn piece_views(pieces: Seq<Vec<u8>>) -> Seq<Seq<u8>> {
    pieces.map_values(|piece: Vec<u8>| piece@)
}

/// The view of what `assemble` returns.
pub open spec fn program_view(program: Result<Vec<u32>, AssembleError>) -> Result<
    Seq<u32>,
    AssembleError,
> {
    match program {
        Ok(words) => Ok(words@),
        Err(error) => Err(error),
    }
}

/// An operand that has an error gives the whole list its error, whatever
/// follows it.
pub proof fn lemma_operand_error_stays(tokens: Seq<Seq<u8>>, n: int)
    requires
        0 <= n <= tokens.len(),
        operands_of(tokens.subrange(0, n)) is Err,
    ensures
        operands_of(tokens) == operands_of(tokens.subrange(0, n)),
    decreases tokens.len() - n,
{
    if n < tokens.len() {
        assert(tokens.subrange(0, n + 1).drop_last() =~= tokens.subrange(0, n));
        lemma_operand_error_stays(tokens, n + 1);
    } else {
        assert(tokens.subrange(0, n) =~= tokens);
    }
}

/// A line that is no instruction gives the whole text its error, whatever
/// follows it.
pub proof fn lemma_line_error_stays(lines: Seq<Seq<u8>>, n: int)
    requires
        0 <= n <= lines.len(),
        lines_words(lines.subrange(0, n)) is Err,
    ensures
        lines_words(lines) == lines_words(lines.subrange(0, n)),
    decreases lines.len() - n,
{
    if n < lines.len() {
        assert(lines.subrange(0, n + 1).drop_last() =~= lines.subrange(0, n));
        lemma_line_error_stays(lines, n + 1);
    } else {
        assert(lines.subrange(0, n) =~= lines);
    }
}

/// The value of a number does not go down as digits are added.
proof fn lemma_values_grow(digits: Seq<u8>)
    requires
        digits.len() >= 1,
    ensures
        decimal_value(digits) >= decimal_value(digits.drop_last()),
        hex_value(digits) >= hex_value(digits.drop_last()),
{
}

fn to_upper(b: u8) -> (r: u8)
    ensures
        r == upper(b),
{
    if 'a' as u8 <= b && b <= 'z' as u8 {
        b - 32
    } else {
        b
    }
}

fn starts_with(text: &[u8], word: &[u8]) -> (r: bool)
    ensures
        r == starts(text@, word@),
{
    if word.len() > text.len() {
        return false;
    }
    let mut i: usize = 0;
    while i < word.len()
        invariant
            i <= word@.len() <= text@.len(),
            text@.subrange(0, i as int) == word@.subrange(0, i as int),
        decreases word@.len() - i,
    {
        if text[i] != word[i] {
            assert(text@.subrange(0, word@.len() as int)[i as int] != word@[i as int]);
            return false;
        }
        assert(text@.subrange(0, i + 1) =~= text@.subrange(0, i as int).push(text@[i as int]));
        assert(word@.subrange(0, i + 1) =~= word@.subrange(0, i as int).push(word@[i as int]));
        i += 1;
    }
    assert(word@.subrange(0, i as int) =~= word@);
    true
}

/// The pieces of `text` between the occurrences of `sep`.
fn split_bytes(text: &[u8], sep: u8) -> (pieces: Vec<Vec<u8>>)
    ensures
        piece_views(pieces@) == split(text@, sep),
{
    let mut pieces: Vec<Vec<u8>> = Vec::new();
    let mut current: Vec<u8> = Vec::new();
    let mut i: usize = 0;
    assert(text@.subrange(0, 0) =~= Seq::<u8>::empty());
    assert(piece_views(pieces@).push(current@) =~= split(text@.subrange(0, 0), sep));
    while i < text.len()
        invariant
            i <= text@.len(),
            piece_views(pieces@).push(current@) == split(text@.subrange(0, i as int), sep),
        decreases text@.len() - i,
    {
        let ghost before = split(text@.subrange(0, i as int), sep);
        assert(text@.subrange(0, i + 1).drop_last() =~= text@.subrange(0, i as int));
        if text[i] == sep {
            pieces.push(current);
            current = Vec::new();
            assert(piece_views(pieces@).push(current@) =~= before.push(Seq::empty()));
        } else {
            current.push(text[i]);
            assert(piece_views(pieces@).push(current@) =~= before.update(
                before.len() - 1,
                before.last().push(text@[i as int]),
            ));
        }
        i += 1;
    }
    assert(text@.subrange(0, i as int) =~= text@);
    pieces.push(current);
    assert(piece_views(pieces@) =~= split(text@, sep));
    pieces
}

/// The arithmetic mnemonic that a line in capitals begins with.
pub fn parse_alu(text: &[u8]) -> (found: Option<(InstrType, usize)>)
    ensures
        found == alu_mnemonic(text@),
{
    if starts_with(text, &['M' as u8, 'O' as u8, 'V' as u8]) {
        Some((InstrType::ALU(ALUType::MOV), 3))
    } else if starts_with(text, &['A' as u8, 'D' as u8, 'D' as u8]) {
        Some((InstrType::ALU(ALUType::ADD), 3))
    } else if starts_with(text, &['S' as u8, 'U' as u8, 'B' as u8]) {
        Some((InstrType::ALU(ALUType::SUB), 3))
    } else if starts_with(text, &['I' as u8, 'M' as u8, 'U' as u8, 'L' as u8]) {
        Some((InstrType::ALU(ALUType::IMUL), 4))
    } else if starts_with(text, &['I' as u8, 'D' as u8, 'I' as u8, 'V' as u8]) {
        Some((InstrType::ALU(ALUType::IDIV), 4))
    } else if starts_with(text, &['A' as u8, 'N' as u8, 'D' as u8]) {
        Some((InstrType::ALU(ALUType::AND), 3))
    } else if starts_with(text, &['O' as u8, 'R' as u8]) {
        Some((InstrType::ALU(ALUType::OR), 2))
    } else if starts_with(text, &['X' as u8, 'O' as u8, 'R' as u8]) {
        Some((InstrType::ALU(ALUType::XOR), 3))
    } else if starts_with(text, &['C' as u8, 'M' as u8, 'P' as u8]) {
        Some((InstrType::ALU(ALUType::CMP), 3))
    } else if starts_with(text, &['M' as u8, 'O' as u8, 'D' as u8]) {
        Some((InstrType::ALU(ALUType::MOD), 3))
    } else if starts_with(text, &['N' as u8, 'O' as u8, 'T' as u8]) {
        Some((InstrType::ALU(ALUType::NOT), 3))
    } else if starts_with(text, &['L' as u8, 'S' as u8, 'L' as u8]) {
        Some((InstrType::ALU(ALUType::LSL), 3))
    } else if starts_with(text, &['L' as u8, 'S' as u8, 'R' as u8]) {
        Some((InstrType::ALU(ALUType::LSR), 3))
    } else {
        None
    }
}

/// The load or store mnemonic that a line in capitals begins with.
pub fn parse_memory(text: &[u8]) -> (found: Option<(InstrType, usize)>)
    ensures
        found == memory_mnemonic(text@),
{
    if starts_with(text, &['L' as u8, 'D' as u8, 'R' as u8]) {
        Some((InstrType::Memory(MemoryType::LDR), 3))
    } else if starts_with(text, &['S' as u8, 'T' as u8, 'R' as u8]) {
        Some((InstrType::Memory(MemoryType::STR), 3))
    } else {
        None
    }
}

/// The branch mnemonic that a line in capitals begins with.
pub fn parse_control(text: &[u8]) -> (found: Option<(InstrType, usize)>)
    ensures
        found == control_mnemonic(text@),
{
    if starts_with(text, &['B' as u8, 'E' as u8, 'Q' as u8]) {
        Some((InstrType::Control(ControlType::BEQ), 3))
    } else if starts_with(text, &['B' as u8, 'L' as u8, 'T' as u8]) {
        Some((InstrType::Control(ControlType::BLT), 3))
    } else if starts_with(text, &['B' as u8, 'G' as u8, 'T' as u8]) {
        Some((InstrType::Control(ControlType::BGT), 3))
    } else if starts_with(text, &['B' as u8, 'N' as u8, 'E' as u8]) {
        Some((InstrType::Control(ControlType::BNE), 3))
    } else if starts_with(text, &['B' as u8, 'G' as u8, 'E' as u8]) {
        Some((InstrType::Control(ControlType::BGE), 3))
    } else if starts_with(text, &['B' as u8, 'L' as u8, 'E' as u8]) {
        Some((InstrType::Control(ControlType::BLE), 3))
    } else if starts_with(text, &['B' as u8]) {
        Some((InstrType::Control(ControlType::B), 1))
    } else {
        None
    }
}

/// The interrupt mnemonic that a line in capitals begins with.
pub fn parse_interrupt(text: &[u8]) -> (found: Option<(InstrType, usize)>)
    ensures
        found == interrupt_mnemonic(text@),
{
    if starts_with(text, &['N' as u8, 'O' as u8, 'P' as u8]) {
        Some((InstrType::Interrupt(InterruptType::NOP), 3))
    } else if starts_with(text, &['H' as u8, 'L' as u8, 'T' as u8]) {
        Some((InstrType::Interrupt(InterruptType::HLT), 3))
    } else {
        None
    }
}

/// The mnemonic that a line in capitals begins with.
pub fn parse_mnemonic(text: &[u8]) -> (found: Option<(InstrType, usize)>)
    ensures
        found == mnemonic_of(text@),
{
    if let Some(found) = parse_alu(text) {
        Some(found)
    } else if let Some(found) = parse_memory(text) {
        Some(found)
    } else if let Some(found) = parse_control(text) {
        Some(found)
    } else {
        parse_interrupt(text)
    }
}

/// Whether `token` is the two bytes `a` and `b`.
fn is_pair(token: &[u8], a: u8, b: u8) -> (r: bool)
    ensures
        r == (token@ == [a, b]@),
{
    if token.len() == 2 && token[0] == a && token[1] == b {
        assert(token@ =~= [a, b]@);
        true
    } else {
        assert(token@.len() != 2 || token@[0] != [a, b]@[0] || token@[1] != [a, b]@[1]);
        false
    }
}

/// The register that an operand in capitals names.
pub fn parse_regs(token: &[u8]) -> (found: Option<Register>)
    ensures
        found == register_of(token@),
{
    if token.len() == 2 && token[0] == 'R' as u8 && '0' as u8 <= token[1] && token[1]
        <= '9' as u8 {
        Register::from_i32((token[1] - '0' as u8) as i32)
    } else if token.len() == 3 && token[0] == 'R' as u8 && token[1] == '1' as u8 && (token[2]
        == '0' as u8 || token[2] == '1' as u8) {
        Register::from_i32((10 + (token[2] - '0' as u8)) as i32)
    } else if is_pair(token, 'S' as u8, 'P' as u8) {
        Some(Register::SP)
    } else if is_pair(token, 'B' as u8, 'F' as u8) {
        Some(Register::BF)
    } else if is_pair(token, 'L' as u8, 'R' as u8) {
        Some(Register::LR)
    } else if is_pair(token, 'P' as u8, 'C' as u8) {
        Some(Register::PC)
    } else {
        None
    }
}

/// The value of a hexadecimal number, or `None` if `token` is none.
pub fn parse_hex(token: &[u8]) -> (found: Option<Result<u32, ParseError>>)
    ensures
        match found {
            None => !is_hex(token@),
            Some(Ok(value)) => is_hex(token@) && value == hex_value(
                token@.subrange(2, token@.len() as int),
            ),
            Some(Err(error)) => is_hex(token@) && error == ParseError::ImmediateOutOfRange
                && hex_value(token@.subrange(2, token@.len() as int)) > u32::MAX,
        },
{
    if token.len() < 3 || token[0] != '0' as u8 || token[1] != 'X' as u8 {
        return None;
    }
    let first = token[2];
    if !(('0' as u8 <= first && first <= '9' as u8) || ('A' as u8 <= first && first
        <= 'F' as u8)) {
        return None;
    }
    let mut value: u64 = 0;
    let mut fits = true;
    let mut i: usize = 2;
    assert(token@.subrange(2, 2) =~= Seq::<u8>::empty());
    while i < token.len()
        invariant
            2 <= i <= token@.len(),
            forall|j: int|
                2 <= j < i ==> is_hex_digit(#[trigger] token@[j]) || token@[j] == '_' as u8,
            fits ==> value == hex_value(token@.subrange(2, i as int)) && value <= u32::MAX,
            !fits ==> hex_value(token@.subrange(2, i as int)) > u32::MAX,
        decreases token@.len() - i,
    {
        let b = token[i];
        assert(token@.subrange(2, i + 1).drop_last() =~= token@.subrange(2, i as int));
        proof {
            lemma_values_grow(token@.subrange(2, i + 1));
        }
        if b == '_' as u8 {
        } else if '0' as u8 <= b && b <= '9' as u8 {
            if fits {
                value = value * 16 + (b - '0' as u8) as u64;
            }
        } else if 'A' as u8 <= b && b <= 'F' as u8 {
            if fits {
                value = value * 16 + (b - 'A' as u8 + 10) as u64;
            }
        } else {
            return None;
        }
        if value > u32::MAX as u64 {
            fits = false;
            value = 0;
        }
        i += 1;
    }
    assert(token@.subrange(2, i as int) =~= token@.subrange(2, token@.len() as int));
    if fits {
        Some(Ok(value as u32))
    } else {
        Some(Err(ParseError::ImmediateOutOfRange))
    }
}

/// The value of a decimal number, or `None` if `token` is none.
pub fn parse_decimal(token: &[u8]) -> (found: Option<Result<u32, ParseError>>)
    ensures
        match found {
            None => !is_decimal(token@),
            Some(Ok(value)) => is_decimal(token@) && value == decimal_value(token@),
            Some(Err(error)) => is_decimal(token@) && error == ParseError::ImmediateOutOfRange
                && decimal_value(token@) > u32::MAX,
        },
{
    if token.len() == 0 {
        return None;
    }
    let mut value: u64 = 0;
    let mut fits = true;
    let mut i: usize = 0;
    assert(token@.subrange(0, 0) =~= Seq::<u8>::empty());
    while i < token.len()
        invariant
            i <= token@.len(),
            forall|j: int| 0 <= j < i ==> is_digit(#[trigger] token@[j]),
            fits ==> value == decimal_value(token@.subrange(0, i as int)) && value <= u32::MAX,
            !fits ==> decimal_value(token@.subrange(0, i as int)) > u32::MAX,
        decreases token@.len() - i,
    {
        let b = token[i];
        assert(token@.subrange(0, i + 1).drop_last() =~= token@.subrange(0, i as int));
        proof {
            lemma_values_grow(token@.subrange(0, i + 1));
        }
        if '0' as u8 <= b && b <= '9' as u8 {
            if fits {
                value = value * 10 + (b - '0' as u8) as u64;
            }
        } else {
            return None;
        }
        if value > u32::MAX as u64 {
            fits = false;
            value = 0;
        }
        i += 1;
    }
    assert(token@.subrange(0, i as int) =~= token@);
    if fits {
        Some(Ok(value as u32))
    } else {
        Some(Err(ParseError::ImmediateOutOfRange))
    }
}

/// The number that an operand in capitals is.
pub fn parse_nums(token: &[u8]) -> (found: Result<u32, ParseError>)
    ensures
        found == match number_of(token@) {
            None => Err::<u32, ParseError>(ParseError::InvalidOperand),
            Some(value) => if value <= u32::MAX {
                Ok(value as u32)
            } else {
                Err(ParseError::ImmediateOutOfRange)
            },
        },
{
    match parse_hex(token) {
        Some(found) => found,
        None => match parse_decimal(token) {
            Some(found) => found,
            None => Err(ParseError::InvalidOperand),
        },
    }
}

/// What an operand in capitals stands for.
pub fn parse_operand(token: &[u8]) -> (found: Result<Operand, ParseError>)
    ensures
        found == operand_of(token@),
{
    match parse_regs(token) {
        Some(reg) => Ok(Operand::Reg(reg)),
        None => match parse_nums(token) {
            Ok(value) => Ok(Operand::Imm(value)),
            Err(error) => Err(error),
        },
    }
}

/// The operands that follow a mnemonic, from the text in capitals.
pub fn parse_comma_sep(text: &[u8]) -> (found: Result<Vec<Operand>, ParseError>)
    ensures
        match found {
            Ok(operands) => operand_list(text@) == Ok::<Seq<Operand>, ParseError>(operands@),
            Err(error) => operand_list(text@) == Err::<Seq<Operand>, ParseError>(error),
        },
{
    let mut compact: Vec<u8> = Vec::new();
    let mut i: usize = 0;
    assert(text@.subrange(0, 0) =~= Seq::<u8>::empty());
    while i < text.len()
        invariant
            i <= text@.len(),
            compact@ == without_spaces(text@.subrange(0, i as int)),
        decreases text@.len() - i,
    {
        let b = text[i];
        assert(text@.subrange(0, i + 1).drop_last() =~= text@.subrange(0, i as int));
        if !(b == ' ' as u8 || (9 <= b && b <= 13)) {
            compact.push(b);
        }
        i += 1;
    }
    assert(text@.subrange(0, i as int) =~= text@);
    let mut operands: Vec<Operand> = Vec::new();
    if compact.len() == 0 {
        return Ok(operands);
    }
    let tokens = split_bytes(compact.as_slice(), ',' as u8);
    let ghost all = piece_views(tokens@);
    let mut n: usize = 0;
    assert(all.subrange(0, 0) =~= Seq::<Seq<u8>>::empty());
    while n < tokens.len()
        invariant
            n <= tokens@.len(),
            all == piece_views(tokens@),
            all == split(without_spaces(text@), ',' as u8),
            without_spaces(text@).len() != 0,
            operands_of(all.subrange(0, n as int)) == Ok::<Seq<Operand>, ParseError>(operands@),
        decreases tokens@.len() - n,
    {
        assert(all.subrange(0, n + 1).drop_last() =~= all.subrange(0, n as int));
        assert(all.subrange(0, n + 1).last() == tokens@[n as int]@);
        match parse_operand(tokens[n].as_slice()) {
            Ok(operand) => {
                operands.push(operand);
            },
            Err(error) => {
                proof {
                    lemma_operand_error_stays(all, n + 1);
                }
                return Err(error);
            },
        }
        n += 1;
    }
    assert(all.subrange(0, n as int) =~= all);
    Ok(operands)
}

/// The word of an instruction with the given operands.
pub fn encode(t: InstrType, operands: &Vec<Operand>) -> (word: Result<u32, ParseError>)
    ensures
        word == encoded(t, operands@),
{
    let (class, opcode) = t.fields();
    if operands.len() == 0 {
        return Ok(class << 29 | opcode << 25 | 0 << 22 | 0 << 18 | 0 << 14 | 0);
    }
    if operands.len() == 1 {
        return match operands[0] {
            Operand::Imm(imm) => Ok(
                class << 29 | opcode << 25 | 3 << 22 | 0 << 18 | 0 << 14 | (imm & 0x3FFFFF),
            ),
            Operand::Reg(reg) => Ok(
                class << 29 | opcode << 25 | 4 << 22 | (reg.slot() as u32) << 18 | 0 << 14 | 0,
            ),
        };
    }
    if operands.len() == 2 {
        if let Operand::Reg(reg_1) = operands[0] {
            return match operands[1] {
                Operand::Reg(reg_2) => Ok(
                    class << 29 | opcode << 25 | 0 << 22 | (reg_1.slot() as u32) << 18 | (
                    reg_2.slot() as u32) << 14 | 0,
                ),
                Operand::Imm(imm) => Ok(
                    class << 29 | opcode << 25 | 2 << 22 | (reg_1.slot() as u32) << 18 | 0 << 14
                        | (imm & 0xFFF),
                ),
            };
        }
    }
    Err(ParseError::UnsupportedOperands)
}

/// The word of a line of bytes.
pub fn parse_line_bytes(line: &[u8]) -> (word: Result<u32, ParseError>)
    ensures
        word == line_word(line@),
{
    let mut text: Vec<u8> = Vec::new();
    let mut i: usize = 0;
    while i < line.len()
        invariant
            i <= line@.len(),
            text@ == uppercase(line@.subrange(0, i as int)),
        decreases line@.len() - i,
    {
        text.push(to_upper(line[i]));
        assert(text@ =~= uppercase(line@.subrange(0, i + 1)));
        i += 1;
    }
    assert(line@.subrange(0, i as int) =~= line@);
    match parse_mnemonic(text.as_slice()) {
        None => Err(ParseError::UnknownMnemonic),
        Some((t, len)) => {
            let mut rest: Vec<u8> = Vec::new();
            let mut j: usize = len;
            proof {
                lemma_mnemonic_length(text@);
            }
            while j < text.len()
                invariant
                    len <= j <= text@.len(),
                    rest@ == text@.subrange(len as int, j as int),
                decreases text@.len() - j,
            {
                rest.push(text[j]);
                assert(rest@ =~= text@.subrange(len as int, j + 1));
                j += 1;
            }
            match parse_comma_sep(rest.as_slice()) {
                Err(error) => Err(error),
                Ok(operands) => encode(t, &operands),
            }
        },
    }
}

/// The mnemonic that a text begins with is no longer than the text.
pub proof fn lemma_mnemonic_length(text: Seq<u8>)
    ensures
        mnemonic_of(text) matches Some((_, len)) ==> 1 <= len <= text.len(),
{
}

/// The word of a line of text.
pub fn parse_line(input: &str) -> (word: Result<u32, ParseError>)
    ensures
        word == line_word(input.spec_bytes()),
{
    parse_line_bytes(input.as_bytes())
}

/// The program of a text of bytes.
pub fn assemble_bytes(input: &[u8]) -> (program: Result<Vec<u32>, AssembleError>)
    ensures
        program_view(program) == assembled(input@),
{
    let lines = split_bytes(input, '\n' as u8);
    let ghost all = piece_views(lines@);
    let mut words: Vec<u32> = Vec::new();
    let mut n: usize = 0;
    assert(all.subrange(0, 0) =~= Seq::<Seq<u8>>::empty());
    while n < lines.len()
        invariant
            n <= lines@.len(),
            all == piece_views(lines@),
            all == split(input@, '\n' as u8),
            lines_words(all.subrange(0, n as int)) == Ok::<Seq<u32>, AssembleError>(words@),
        decreases lines@.len() - n,
    {
        assert(all.subrange(0, n + 1).drop_last() =~= all.subrange(0, n as int));
        assert(all.subrange(0, n + 1).last() == lines@[n as int]@);
        match parse_line_bytes(lines[n].as_slice()) {
            Ok(word) => {
                words.push(word);
            },
            Err(error) => {
                proof {
                    lemma_line_error_stays(all, n + 1);
                }
                return Err(AssembleError { line: n, error });
            },
        }
        n += 1;
    }
    assert(all.subrange(0, n as int) =~= all);
    Ok(words)
}

/// Assembles a program: one instruction word for each line of `input`.
///
/// The result is an error when a line is no instruction; this holds of an
/// empty line too, and so of a text that ends in a line feed.
pub fn assemble(input: &str) -> (program: Result<Vec<u32>, AssembleError>)
    ensures
        program_view(program) == assembled(input.spec_bytes()),
{
    assemble_bytes(input.as_bytes())
}

/// The fields of a packed word are the fields it was packed from, as long
/// as the immediate does not reach into the register fields, or there are
/// no registers and it stays below the mode field.
proof fn lemma_pack_fields(class: u32, opcode: u32, mode: u32, reg_1: u32, reg_2: u32, imm: u32)
    by (bit_vector)
    requires
        class < 8,
        opcode < 16,
        mode < 8,
        reg_1 < 16,
        reg_2 < 16,
        imm < 0x4000 || (reg_1 == 0 && reg_2 == 0 && imm < 0x400000),
    ensures
        pack(class, opcode, mode, reg_1, reg_2, imm) >> 29 == class,
        (pack(class, opcode, mode, reg_1, reg_2, imm) >> 25) & 0xF == opcode,
        (pack(class, opcode, mode, reg_1, reg_2, imm) >> 22) & 0x7 == mode,
        imm < 0x4000 ==> (pack(class, opcode, mode, reg_1, reg_2, imm) >> 18) & 0xF == reg_1,
        imm < 0x4000 ==> (pack(class, opcode, mode, reg_1, reg_2, imm) >> 14) & 0xF == reg_2,
        imm < 0x1000 ==> pack(class, opcode, mode, reg_1, reg_2, imm) & 0xFFF == imm,
        reg_1 == 0 && reg_2 == 0 ==> pack(class, opcode, mode, reg_1, reg_2, imm) & 0x3FFFFF
            == imm,
{
}

proof fn lemma_masks(imm: u32)
    by (bit_vector)
    ensures
        imm & 0xFFF < 0x1000,
        imm & 0x3FFFFF < 0x400000,
{
}

/// A word comes back from memory as it went in: kept as a memory word and
/// read as a raw instruction, it has the same 32 bits.
pub proof fn lemma_word_through_memory(word: u32)
    by (bit_vector)
    ensures
        ((word as usize) as i32) as u32 == word,
{
}

/// Decoding what the assembler encoded gives back the instruction. The
/// instruction type and the addressing mode are those that were encoded, the
/// registers are those of the operands, and the immediate is that of the
/// operand cut to the width of its field. An instruction without operands
/// decodes as one on `R0` and `R0`.
pub proof fn lemma_assemble_then_decode(t: InstrType, operands: Seq<Operand>, instr: Instruction)
    requires
        encoded(t, operands) == Ok::<u32, ParseError>(instr.instr_raw as u32),
    ensures
        decoded(instr) matches Ok(d) && {
            &&& d.instr_type == t
            &&& Some(d.addr_mode) == mode_of(operands)
            &&& match d.addr_mode {
                AddrMode::Imm => d.imm == (operands[0]->Imm_0 & 0x3FFFFF) as i32,
                AddrMode::Reg => d.reg_1 == operands[0]->Reg_0,
                AddrMode::RegImm => d.reg_1 == operands[0]->Reg_0 && d.imm == (operands[1]->Imm_0
                    & 0xFFF) as i32,
                AddrMode::RegReg => if operands.len() == 0 {
                    d.reg_1 == Register::R0 && d.reg_2 == Register::R0
                } else {
                    d.reg_1 == operands[0]->Reg_0 && d.reg_2 == operands[1]->Reg_0
                },
                AddrMode::RegRegOff => false,
            }
        },
{
    lemma_instr_type_codes(t);
    let class = t.class_code() as u32;
    let opcode = t.opcode() as u32;
    let mode = mode_of(operands)->0;
    lemma_addr_mode_codes(mode);
    let w = instr.instr_raw as u32;
    match mode {
        AddrMode::Imm => {
            let imm = operands[0]->Imm_0 & 0x3FFFFF;
            lemma_masks(operands[0]->Imm_0);
            lemma_pack_fields(class, opcode, 3, 0, 0, imm);
        },
        AddrMode::Reg => {
            let reg = operands[0]->Reg_0;
            lemma_register_index(reg);
            lemma_pack_fields(class, opcode, 4, reg.index() as u32, 0, 0);
        },
        AddrMode::RegImm => {
            let reg = operands[0]->Reg_0;
            let imm = operands[1]->Imm_0 & 0xFFF;
            lemma_register_index(reg);
            lemma_masks(operands[1]->Imm_0);
            lemma_pack_fields(class, opcode, 2, reg.index() as u32, 0, imm);
        },
        _ => {
            if operands.len() == 0 {
                lemma_pack_fields(class, opcode, 0, 0, 0, 0);
            } else {
                let reg_1 = operands[0]->Reg_0;
                let reg_2 = operands[1]->Reg_0;
                lemma_register_index(reg_1);
                lemma_register_index(reg_2);
                lemma_pack_fields(
                    class,
                    opcode,
                    0,
                    reg_1.index() as u32,
                    reg_2.index() as u32,
                    0,
                );
            }
        },
    }
}

} // verus!
