use simulator::assembler::{
    assemble, assemble_bytes, encode, parse_comma_sep, parse_decimal, parse_hex, parse_line,
    parse_nums, parse_operand, parse_regs, AssembleError, Operand, ParseError,
};
use simulator::processor::instruction::{ALUType, ControlType, InstrType, Instruction, InterruptType};
use simulator::processor::pipeline::StageResult;
use simulator::processor::registers::{Register, Registers};
use simulator::processor::stages::decode;

#[test]
fn words_of_the_four_operand_shapes() {
    assert_eq!(parse_line("MOV R1, 42"), Ok(0x0084_002A));
    assert_eq!(parse_line("ADD R1, R2"), Ok(0x0204_8000));
    assert_eq!(parse_line("CMP R1, R1"), Ok(0x1004_4000));
    assert_eq!(parse_line("BEQ 0x100"), Ok(0x40C0_0100));
    assert_eq!(parse_line("STR R1, 0x40"), Ok(0x2284_0040));
    assert_eq!(parse_line("LDR R2, 0x40"), Ok(0x2088_0040));
    assert_eq!(parse_line("B LR"), Ok(0x4938_0000));
    assert_eq!(parse_line("MOV R11, PC"), Ok(0x002F_C000));
    assert_eq!(parse_line("NOT R10"), Ok(10 << 25 | 4 << 22 | 10 << 18));
}

#[test]
fn instructions_without_operands() {
    assert_eq!(parse_line("NOP"), Ok(0x6000_0000));
    assert_eq!(parse_line("HLT"), Ok(0x6200_0000));
    assert_eq!(parse_line("HLT  \t"), Ok(0x6200_0000));
}

#[test]
fn every_mnemonic() {
    let expected = [
        ("MOV", 0, 0), ("ADD", 0, 1), ("SUB", 0, 2), ("IMUL", 0, 3), ("IDIV", 0, 4),
        ("AND", 0, 5), ("OR", 0, 6), ("XOR", 0, 7), ("CMP", 0, 8), ("MOD", 0, 9),
        ("NOT", 0, 10), ("LSL", 0, 11), ("LSR", 0, 12),
        ("LDR", 1, 0), ("STR", 1, 1),
        ("BEQ", 2, 0), ("BLT", 2, 1), ("BGT", 2, 2), ("BNE", 2, 3), ("B", 2, 4),
        ("BGE", 2, 5), ("BLE", 2, 6),
        ("NOP", 3, 0), ("HLT", 3, 1),
    ];
    for (mnemonic, class, opcode) in expected {
        assert_eq!(parse_line(mnemonic), Ok(class << 29 | opcode << 25), "{}", mnemonic);
    }
}

#[test]
fn every_register_name() {
    let names = [
        "R0", "R1", "R2", "R3", "R4", "R5", "R6", "R7", "R8", "R9", "R10", "R11", "SP", "BF", "LR", "PC",
    ];
    for (number, name) in names.iter().enumerate() {
        assert_eq!(parse_regs(name.as_bytes()), Register::from_i32(number as i32));
        assert_eq!(parse_line(&format!("MOV {}", name)), Ok(4 << 22 | (number as u32) << 18));
    }
    assert_eq!(parse_regs(b"R12"), None);
    assert_eq!(parse_regs(b"R"), None);
    assert_eq!(parse_regs(b"R01"), None);
    assert_eq!(parse_regs(b"SPX"), None);
    assert_eq!(parse_regs(b"r1"), None);
}

#[test]
fn letters_of_either_case_and_white_space() {
    assert_eq!(parse_line("mov r1, 0x2a"), Ok(0x0084_002A));
    assert_eq!(parse_line("Mov\tR1 ,\t4 2\r"), Ok(0x0084_002A));
    assert_eq!(parse_line("MOVR1,42"), Ok(0x0084_002A));
    assert_eq!(parse_line("beq 0X100"), Ok(0x40C0_0100));
}

#[test]
fn numbers() {
    assert_eq!(parse_decimal(b"0"), Some(Ok(0)));
    assert_eq!(parse_decimal(b"007"), Some(Ok(7)));
    assert_eq!(parse_decimal(b"4294967295"), Some(Ok(u32::MAX)));
    assert_eq!(parse_decimal(b"4294967296"), Some(Err(ParseError::ImmediateOutOfRange)));
    assert_eq!(parse_decimal(b"99999999999999999999999999"), Some(Err(ParseError::ImmediateOutOfRange)));
    assert_eq!(parse_decimal(b""), None);
    assert_eq!(parse_decimal(b"12A"), None);
    assert_eq!(parse_decimal(b"1_000"), None);
    assert_eq!(parse_hex(b"0X1F"), Some(Ok(31)));
    assert_eq!(parse_hex(b"0XFFFF_FFFF"), Some(Ok(u32::MAX)));
    assert_eq!(parse_hex(b"0XDEAD__BEEF_"), Some(Ok(0xDEAD_BEEF)));
    assert_eq!(parse_hex(b"0X1_0000_0000"), Some(Err(ParseError::ImmediateOutOfRange)));
    assert_eq!(parse_hex(b"0X"), None);
    assert_eq!(parse_hex(b"0X_1"), None);
    assert_eq!(parse_hex(b"0X1G"), None);
    assert_eq!(parse_hex(b"0x1f"), None);
    assert_eq!(parse_hex(b"1F"), None);
    assert_eq!(parse_nums(b"0X10"), Ok(16));
    assert_eq!(parse_nums(b"10"), Ok(10));
    assert_eq!(parse_nums(b"TEN"), Err(ParseError::InvalidOperand));
    assert_eq!(parse_nums(b"0X100000000"), Err(ParseError::ImmediateOutOfRange));
}

#[test]
fn operands() {
    assert_eq!(parse_operand(b"SP"), Ok(Operand::Reg(Register::SP)));
    assert_eq!(parse_operand(b"12"), Ok(Operand::Imm(12)));
    assert_eq!(parse_operand(b"R16"), Err(ParseError::InvalidOperand));
    assert_eq!(parse_comma_sep(b" R1 , 2 "), Ok(vec![Operand::Reg(Register::R1), Operand::Imm(2)]));
    assert_eq!(parse_comma_sep(b"  "), Ok(vec![]));
    assert_eq!(parse_comma_sep(b"1,2,3"), Ok(vec![Operand::Imm(1), Operand::Imm(2), Operand::Imm(3)]));
    assert_eq!(parse_comma_sep(b"R1,"), Err(ParseError::InvalidOperand));
    assert_eq!(parse_comma_sep(b","), Err(ParseError::InvalidOperand));
    // the first operand that has an error decides
    assert_eq!(parse_comma_sep(b"99999999999,X"), Err(ParseError::ImmediateOutOfRange));
    assert_eq!(parse_comma_sep(b"X,99999999999"), Err(ParseError::InvalidOperand));
}

#[test]
fn immediates_are_cut_to_their_field() {
    assert_eq!(parse_line("MOV R1, 0x1005"), Ok(0x0084_0005));
    assert_eq!(parse_line("MOV R1, 0xFFFFFFFF"), Ok(0x0084_0FFF));
    assert_eq!(parse_line("B 0xFFFFFFFF"), Ok(0x48FF_FFFF));
    assert_eq!(parse_line("B 0x400001"), Ok(0x48C0_0001));
}

#[test]
fn encode_by_operands() {
    let mov = InstrType::ALU(ALUType::MOV);
    assert_eq!(encode(mov, &vec![]), Ok(0));
    assert_eq!(encode(mov, &vec![Operand::Imm(5)]), Ok(3 << 22 | 5));
    assert_eq!(encode(mov, &vec![Operand::Reg(Register::R2)]), Ok(4 << 22 | 2 << 18));
    assert_eq!(
        encode(InstrType::Control(ControlType::BLE), &vec![Operand::Reg(Register::PC), Operand::Imm(1)]),
        Ok(2 << 29 | 6 << 25 | 2 << 22 | 15 << 18 | 1)
    );
    assert_eq!(
        encode(mov, &vec![Operand::Imm(1), Operand::Reg(Register::R1)]),
        Err(ParseError::UnsupportedOperands)
    );
    assert_eq!(
        encode(mov, &vec![Operand::Imm(1), Operand::Imm(1)]),
        Err(ParseError::UnsupportedOperands)
    );
    assert_eq!(
        encode(InstrType::Interrupt(InterruptType::NOP), &vec![Operand::Reg(Register::R1); 3]),
        Err(ParseError::UnsupportedOperands)
    );
}

#[test]
fn lines_that_are_no_instruction() {
    assert_eq!(parse_line(""), Err(ParseError::UnknownMnemonic));
    assert_eq!(parse_line("FOO R1"), Err(ParseError::UnknownMnemonic));
    assert_eq!(parse_line(" MOV R1, 1"), Err(ParseError::UnknownMnemonic));
    assert_eq!(parse_line("MOV R1, R16"), Err(ParseError::InvalidOperand));
    assert_eq!(parse_line("MOV R1,"), Err(ParseError::InvalidOperand));
    assert_eq!(parse_line("MOV R1, 1 ; one"), Err(ParseError::InvalidOperand));
    assert_eq!(parse_line("BX"), Err(ParseError::InvalidOperand));
    assert_eq!(parse_line("MOV R1, 4294967296"), Err(ParseError::ImmediateOutOfRange));
    assert_eq!(parse_line("MOV R1, R2, R3"), Err(ParseError::UnsupportedOperands));
    assert_eq!(parse_line("MOV 5, R1"), Err(ParseError::UnsupportedOperands));
}

#[test]
fn a_program_has_one_word_for_each_line() {
    assert_eq!(assemble("MOV R1, 3\nMOV R2, 4\nADD R1, R2"), Ok(vec![0x0084_0003, 0x0088_0004, 0x0204_8000]));
    assert_eq!(assemble("HLT"), Ok(vec![0x6200_0000]));
    assert_eq!(assemble("MOV R1, 1\r\nHLT"), Ok(vec![0x0084_0001, 0x6200_0000]));
    assert_eq!(assemble_bytes(b"NOP\nNOP"), Ok(vec![0x6000_0000; 2]));
}

#[test]
fn the_first_bad_line_is_reported() {
    assert_eq!(assemble(""), Err(AssembleError { line: 0, error: ParseError::UnknownMnemonic }));
    assert_eq!(
        assemble("MOV R1, 1\nFOO\nMOV R1, R16"),
        Err(AssembleError { line: 1, error: ParseError::UnknownMnemonic })
    );
    assert_eq!(
        assemble("MOV R1, 1\nMOV R1, R16\nFOO"),
        Err(AssembleError { line: 1, error: ParseError::InvalidOperand })
    );
    // a text that ends in a line feed ends in an empty line
    assert_eq!(assemble("HLT\n"), Err(AssembleError { line: 1, error: ParseError::UnknownMnemonic }));
}

#[test]
fn decoding_gives_back_what_was_assembled() {
    let cases = [
        ("LSL R3, SP", InstrType::ALU(ALUType::LSL), Register::R3, Register::R3, Register::SP, 0),
        ("SUB R9, 0xABC", InstrType::ALU(ALUType::SUB), Register::R9, Register::R9, Register::R0, 0xABC),
        ("SUB R9, 0x1ABC", InstrType::ALU(ALUType::SUB), Register::R9, Register::R9, Register::R0, 0xABC),
        ("BGT 0x3FFFFF", InstrType::Control(ControlType::BGT), Register::PC, Register::R0, Register::R0, 0x3FFFFF),
        ("BGT 0x7FFFFF", InstrType::Control(ControlType::BGT), Register::PC, Register::R0, Register::R0, 0x3FFFFF),
        ("CMP R5", InstrType::ALU(ALUType::CMP), Register::BF, Register::R5, Register::R0, 0),
        ("NOP", InstrType::Interrupt(InterruptType::NOP), Register::R0, Register::R0, Register::R0, 0),
    ];
    for (line, instr_type, dest, reg_1, reg_2, imm) in cases {
        let word = parse_line(line).unwrap();
        // through memory: kept as a memory word, read as a raw instruction
        let mut instr = Instruction::new();
        instr.instr_raw = (word as usize) as i32;
        let mut regs = Registers::default();
        assert_eq!(decode(&mut regs, &mut instr), StageResult::DONE, "{}", line);
        assert_eq!(instr.instr_type, instr_type, "{}", line);
        assert_eq!(instr.dest, dest, "{}", line);
        assert_eq!(instr.reg_1, reg_1, "{}", line);
        assert_eq!(instr.reg_2, reg_2, "{}", line);
        assert_eq!(instr.imm, imm, "{}", line);
    }
}
