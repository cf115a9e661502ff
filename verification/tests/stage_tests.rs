use simulator::memory::{Cache, Memory, MemoryValue, Transparency, RAM};
use simulator::processor::instruction::{
    ALUType, AddrMode, ControlType, Fault, InstrType, Instruction, InterruptType, MemoryType,
};
use simulator::processor::pipeline::{process, StageResult, StageType};
use simulator::processor::registers::{Register, Registers};
use simulator::processor::stages::{alu, decode, execute, fetch, memory, writeback};

fn small_memory() -> Cache<RAM> {
    Cache::new(2048, 16, 4, 1, 2, Box::new(RAM::new(1024, 16, 4, 1)))
}

fn with_raw(raw: u32) -> Instruction {
    let mut instr = Instruction::new();
    instr.instr_raw = raw as i32;
    instr.meta.initialized = true;
    instr
}

#[test]
fn register_from_number() {
    assert_eq!(Register::from_i32(0), Some(Register::R0));
    assert_eq!(Register::from_i32(11), Some(Register::R11));
    assert_eq!(Register::from_i32(12), Some(Register::SP));
    assert_eq!(Register::from_i32(13), Some(Register::BF));
    assert_eq!(Register::from_i32(14), Some(Register::LR));
    assert_eq!(Register::from_i32(15), Some(Register::PC));
    assert_eq!(Register::from_i32(16), None);
    assert_eq!(Register::from_i32(-1), None);
    assert_eq!(Register::PC.slot(), 15);
    assert_eq!(Register::R7.slot(), 7);
}

#[test]
fn fields_from_numbers() {
    assert_eq!(AddrMode::from_i32(0), Some(AddrMode::RegReg));
    assert_eq!(AddrMode::from_i32(1), Some(AddrMode::RegRegOff));
    assert_eq!(AddrMode::from_i32(2), Some(AddrMode::RegImm));
    assert_eq!(AddrMode::from_i32(3), Some(AddrMode::Imm));
    assert_eq!(AddrMode::from_i32(4), Some(AddrMode::Reg));
    assert_eq!(AddrMode::from_i32(5), None);
    assert_eq!(ALUType::from_i32(0), Some(ALUType::MOV));
    assert_eq!(ALUType::from_i32(8), Some(ALUType::CMP));
    assert_eq!(ALUType::from_i32(12), Some(ALUType::LSR));
    assert_eq!(ALUType::from_i32(13), None);
    assert_eq!(MemoryType::from_i32(0), Some(MemoryType::LDR));
    assert_eq!(MemoryType::from_i32(1), Some(MemoryType::STR));
    assert_eq!(MemoryType::from_i32(2), None);
    assert_eq!(ControlType::from_i32(0), Some(ControlType::BEQ));
    assert_eq!(ControlType::from_i32(4), Some(ControlType::B));
    assert_eq!(ControlType::from_i32(6), Some(ControlType::BLE));
    assert_eq!(ControlType::from_i32(7), None);
    assert_eq!(InterruptType::from_i32(0), Some(InterruptType::NOP));
    assert_eq!(InterruptType::from_i32(1), Some(InterruptType::HLT));
    assert_eq!(InterruptType::from_i32(-1), None);
    assert_eq!(InstrType::Control(ControlType::BNE).fields(), (2, 3));
    assert_eq!(InstrType::ALU(ALUType::LSL).fields(), (0, 11));
    assert_eq!(InstrType::Memory(MemoryType::STR).fields(), (1, 1));
    assert_eq!(InstrType::Interrupt(InterruptType::HLT).fields(), (3, 1));
}

#[test]
fn register_file() {
    let mut regs = Registers::default();
    assert_eq!(regs.registers, [0; 16]);
    assert_eq!(regs.in_use, [false; 16]);
    regs.set_reg(Register::SP, -5);
    assert_eq!(regs.get_reg(Register::SP), -5);
    assert_eq!(regs.registers[12], -5);
    regs.set_in_use(Register::BF, true);
    regs.set_in_use(Register::R2, true);
    assert!(regs.is_in_use(Register::BF));
    assert!(!regs.is_in_use(Register::LR));
    regs.set_in_use(Register::R2, false);
    assert!(!regs.is_in_use(Register::R2));
    regs.clear_in_use();
    assert_eq!(regs.in_use, [false; 16]);
    assert_eq!(regs.get_reg(Register::SP), -5);
    regs.set_in_use(Register::PC, true);
    regs.reset();
    assert_eq!(regs.registers, [0; 16]);
    assert_eq!(regs.in_use, [false; 16]);
}

#[test]
fn new_instruction_is_a_placeholder() {
    let instr = Instruction::new();
    assert_eq!(instr.instr_raw, 0);
    assert_eq!(instr.instr_type, InstrType::ALU(ALUType::MOV));
    assert_eq!(instr.addr_mode, AddrMode::RegReg);
    assert_eq!(instr.dest, Register::R0);
    assert!(instr.meta.writeback);
    assert!(!instr.meta.squashed);
    assert!(!instr.meta.initialized);
    assert_eq!(instr.meta.result, 0);
    assert_eq!(instr.meta.fault, None);
}

#[test]
fn operands_by_addressing_mode() {
    let mut regs = Registers::default();
    regs.set_reg(Register::R1, 10);
    regs.set_reg(Register::R2, 20);
    let mut instr = Instruction::new();
    instr.reg_1 = Register::R1;
    instr.reg_2 = Register::R2;
    let expected = [
        (AddrMode::RegReg, 10, 20),
        (AddrMode::RegRegOff, 10, 20),
        (AddrMode::RegImm, 10, 0),
        (AddrMode::Imm, 0, 0),
        (AddrMode::Reg, 10, 0),
    ];
    for (mode, first, second) in expected {
        instr.addr_mode = mode;
        assert_eq!(instr.get_arg_1(&regs), first);
        assert_eq!(instr.get_arg_2(&regs), second);
    }
}

#[test]
fn arithmetic_unit() {
    assert_eq!(alu(ALUType::MOV, 9, 3, 4), Ok(7));
    assert_eq!(alu(ALUType::ADD, 1, 2, 3), Ok(6));
    assert_eq!(alu(ALUType::SUB, 10, 2, 3), Ok(5));
    assert_eq!(alu(ALUType::IMUL, 4, 2, 1), Ok(12));
    assert_eq!(alu(ALUType::IDIV, -7, 2, 0), Ok(-3));
    assert_eq!(alu(ALUType::IDIV, 7, -1, -1), Ok(-3));
    assert_eq!(alu(ALUType::AND, 12, 10, 0), Ok(8));
    assert_eq!(alu(ALUType::OR, 12, 10, 0), Ok(14));
    assert_eq!(alu(ALUType::XOR, 12, 10, 0), Ok(6));
    assert_eq!(alu(ALUType::CMP, 5, 5, 0), Ok(0));
    assert_eq!(alu(ALUType::CMP, 3, 5, 0), Ok(-2));
    assert_eq!(alu(ALUType::MOD, -7, 2, 0), Ok(-1));
    assert_eq!(alu(ALUType::MOD, 7, 2, 1), Ok(1));
    assert_eq!(alu(ALUType::NOT, 5, 99, 1), Ok(-7));
    assert_eq!(alu(ALUType::LSL, 1, 4, 0), Ok(16));
    assert_eq!(alu(ALUType::LSL, 1, 32, 1), Ok(2));
    assert_eq!(alu(ALUType::LSR, -16, 1, 1), Ok(-4));
    assert_eq!(alu(ALUType::LSR, 16, 0, 2), Ok(4));
}

#[test]
fn arithmetic_wraps_in_thirty_two_bits() {
    assert_eq!(alu(ALUType::ADD, i32::MAX, 1, 0), Ok(i32::MIN));
    assert_eq!(alu(ALUType::ADD, 0, i32::MAX, 1), Ok(i32::MIN));
    assert_eq!(alu(ALUType::SUB, i32::MIN, 1, 0), Ok(i32::MAX));
    assert_eq!(alu(ALUType::IMUL, 0x10000, 0x10000, 0), Ok(0));
    assert_eq!(alu(ALUType::MOV, 0, i32::MAX, i32::MAX), Ok(-2));
}

#[test]
fn quotients_that_do_not_exist_are_faults() {
    assert_eq!(alu(ALUType::IDIV, 7, 0, 0), Err(Fault::DivisionByZero));
    assert_eq!(alu(ALUType::IDIV, 7, 4, -4), Err(Fault::DivisionByZero));
    assert_eq!(alu(ALUType::MOD, 7, 0, 0), Err(Fault::DivisionByZero));
    assert_eq!(alu(ALUType::IDIV, i32::MIN, -1, 0), Err(Fault::DivisionOverflow));
    assert_eq!(alu(ALUType::MOD, i32::MIN, -1, 0), Err(Fault::DivisionOverflow));
}

#[test]
fn decode_reads_the_fields_and_reserves_the_destination() {
    let mut regs = Registers::default();
    // ADD R3, R8 with an offset: mode RegRegOff
    let mut instr = with_raw(0 << 29 | 1 << 25 | 1 << 22 | 3 << 18 | 8 << 14 | 0x1234);
    assert_eq!(decode(&mut regs, &mut instr), StageResult::DONE);
    assert_eq!(instr.instr_type, InstrType::ALU(ALUType::ADD));
    assert_eq!(instr.addr_mode, AddrMode::RegRegOff);
    assert_eq!(instr.reg_1, Register::R3);
    assert_eq!(instr.reg_2, Register::R8);
    assert_eq!(instr.imm, 0x1234);
    assert_eq!(instr.dest, Register::R3);
    assert!(regs.is_in_use(Register::R3));
    assert!(!regs.is_in_use(Register::R8));

    // the sixteen bits of the offset reach into the second register's field
    let mut overlap = with_raw(1 << 25 | 1 << 22 | 4 << 18 | 0xFFFF);
    assert_eq!(decode(&mut Registers::default(), &mut overlap), StageResult::DONE);
    assert_eq!(overlap.reg_2, Register::R3);
    assert_eq!(overlap.imm, 0xFFFF);

    let mut imm = with_raw(0x0084_0FFF);
    assert_eq!(decode(&mut regs, &mut imm), StageResult::DONE);
    assert_eq!(imm.addr_mode, AddrMode::RegImm);
    assert_eq!(imm.imm, 0xFFF);
    assert_eq!(imm.dest, Register::R1);

    let mut branch = with_raw(0x40FF_FFFF);
    assert_eq!(decode(&mut regs, &mut branch), StageResult::DONE);
    assert_eq!(branch.instr_type, InstrType::Control(ControlType::BEQ));
    assert_eq!(branch.addr_mode, AddrMode::Imm);
    assert_eq!(branch.imm, 0x3FFFFF);
    assert_eq!(branch.dest, Register::PC);
    assert!(regs.is_in_use(Register::PC));

    let mut compare = with_raw(0x1009_0000 | 4 << 22);
    assert_eq!(decode(&mut regs, &mut compare), StageResult::DONE);
    assert_eq!(compare.instr_type, InstrType::ALU(ALUType::CMP));
    assert_eq!(compare.addr_mode, AddrMode::Reg);
    assert_eq!(compare.reg_1, Register::R2);
    assert_eq!(compare.dest, Register::BF);
    assert!(regs.is_in_use(Register::BF));
    assert!(!regs.is_in_use(Register::R2));
}

#[test]
fn decode_waits_for_reserved_registers() {
    let mut regs = Registers::default();
    regs.set_in_use(Register::R2, true);
    let mut instr = with_raw(0x0204_8000);
    assert_eq!(decode(&mut regs, &mut instr), StageResult::WAIT);
    assert!(!regs.is_in_use(Register::R1));
    regs.set_in_use(Register::R2, false);
    assert_eq!(decode(&mut regs, &mut instr), StageResult::DONE);
    assert!(regs.is_in_use(Register::R1));
    // the destination of the instruction itself counts
    let mut again = with_raw(0x0204_8000);
    assert_eq!(decode(&mut regs, &mut again), StageResult::WAIT);
}

#[test]
fn destination_while_waiting_is_the_named_register() {
    // CMP R2, R3 while R3 is reserved
    let mut regs = Registers::default();
    regs.set_in_use(Register::R3, true);
    let mut compare = with_raw(8 << 25 | 2 << 18 | 3 << 14);
    assert_eq!(decode(&mut regs, &mut compare), StageResult::WAIT);
    assert_eq!(compare.instr_type, InstrType::ALU(ALUType::CMP));
    assert_eq!(compare.dest, Register::R2);
    assert!(!regs.is_in_use(Register::BF));
    regs.set_in_use(Register::R3, false);
    assert_eq!(decode(&mut regs, &mut compare), StageResult::DONE);
    assert_eq!(compare.dest, Register::BF);
    assert!(regs.is_in_use(Register::BF));
    assert!(!regs.is_in_use(Register::R2));
}

#[test]
fn branch_waits_for_the_branch_flag() {
    let mut regs = Registers::default();
    regs.set_in_use(Register::BF, true);
    let mut branch = with_raw(0x40C0_0100);
    assert_eq!(decode(&mut regs, &mut branch), StageResult::WAIT);
    assert!(!regs.is_in_use(Register::PC));
    regs.set_in_use(Register::BF, false);
    assert_eq!(decode(&mut regs, &mut branch), StageResult::DONE);
    assert!(regs.is_in_use(Register::PC));
}

#[test]
fn decode_rejects_words_that_are_no_instruction() {
    let cases = [
        (0x8000_0000u32, Fault::InvalidClass),
        (0xE000_0000, Fault::InvalidClass),
        (0 << 29 | 13 << 25, Fault::InvalidOpcode),
        (1 << 29 | 2 << 25, Fault::InvalidOpcode),
        (2 << 29 | 7 << 25, Fault::InvalidOpcode),
        (3 << 29 | 2 << 25, Fault::InvalidOpcode),
        (5 << 22, Fault::InvalidAddrMode),
        (7 << 22, Fault::InvalidAddrMode),
    ];
    for (raw, fault) in cases {
        let mut regs = Registers::default();
        let mut instr = with_raw(raw);
        assert_eq!(decode(&mut regs, &mut instr), StageResult::HALT);
        assert_eq!(instr.meta.fault, Some(fault));
        assert_eq!(regs.in_use, [false; 16]);
    }
}

#[test]
fn execute_computes_and_resolves_branches() {
    let mut regs = Registers::default();
    regs.set_reg(Register::R1, 3);
    regs.set_reg(Register::R2, 4);
    let mut add = with_raw(0x0204_8000);
    decode(&mut regs, &mut add);
    assert_eq!(execute(&regs, &mut add), StageResult::DONE);
    assert_eq!(add.meta.result, 7);

    for (op, flag, taken) in [
        (ControlType::BEQ, 0, true),
        (ControlType::BEQ, 1, false),
        (ControlType::BLT, -1, true),
        (ControlType::BLT, 0, false),
        (ControlType::BGT, 1, true),
        (ControlType::BGT, 0, false),
        (ControlType::BNE, 2, true),
        (ControlType::BNE, 0, false),
        (ControlType::B, 0, true),
        (ControlType::B, -9, true),
        (ControlType::BGE, 0, true),
        (ControlType::BGE, -1, false),
        (ControlType::BLE, 0, true),
        (ControlType::BLE, 1, false),
    ] {
        regs.set_reg(Register::BF, flag);
        let mut branch = Instruction::new();
        branch.instr_type = InstrType::Control(op);
        branch.addr_mode = AddrMode::RegImm;
        branch.reg_1 = Register::R1;
        branch.imm = 0x20;
        assert_eq!(execute(&regs, &mut branch), StageResult::DONE);
        assert_eq!(branch.meta.writeback, taken);
        assert_eq!(branch.meta.result, if taken { 0x23 } else { 0 });
    }

    let mut zero = Instruction::new();
    zero.instr_type = InstrType::ALU(ALUType::MOD);
    zero.addr_mode = AddrMode::Reg;
    assert_eq!(execute(&regs, &mut zero), StageResult::HALT);
    assert_eq!(zero.meta.fault, Some(Fault::DivisionByZero));

    let mut load = Instruction::new();
    load.instr_type = InstrType::Memory(MemoryType::LDR);
    let before = load;
    assert_eq!(execute(&regs, &mut load), StageResult::DONE);
    assert_eq!(load, before);
}

#[test]
fn fetch_reads_at_the_program_counter() {
    let mut mem = small_memory();
    mem.flash(0, &[1, 2, 0xFFFF_FFFF]);
    let mut regs = Registers::default();
    regs.set_reg(Register::PC, 8);
    let mut instr = Instruction::new();
    assert_eq!(fetch(&mut mem, &mut regs, &mut instr), StageResult::DONE);
    assert_eq!(instr.instr_raw, -1);
    assert!(instr.meta.initialized);
    assert_eq!(regs.get_reg(Register::PC), 12);
    assert_eq!(regs.in_use, [false; 16]);
}

#[test]
fn fetch_waits_while_memory_is_busy() {
    let mut mem = Cache::new(2048, 16, 4, 1, 2, Box::new(RAM::new(1024, 16, 4, 3)));
    mem.flash(0, &[9]);
    let mut regs = Registers::default();
    let mut instr = Instruction::new();
    for _ in 0..2 {
        assert_eq!(fetch(&mut mem, &mut regs, &mut instr), StageResult::WAIT);
        assert_eq!(regs.get_reg(Register::PC), 0);
        assert!(!instr.meta.initialized);
    }
    assert_eq!(fetch(&mut mem, &mut regs, &mut instr), StageResult::DONE);
    assert_eq!(instr.instr_raw, 9);
    assert_eq!(regs.get_reg(Register::PC), 4);
}

#[test]
fn program_counter_wraps() {
    let mut mem = small_memory();
    let mut regs = Registers::default();
    regs.set_reg(Register::PC, i32::MAX - 3);
    let mut instr = Instruction::new();
    assert_eq!(fetch(&mut mem, &mut regs, &mut instr), StageResult::DONE);
    assert_eq!(regs.get_reg(Register::PC), i32::MIN);
}

#[test]
fn memory_stage_loads_and_stores() {
    let mut mem = Cache::new(2048, 16, 4, 1, 2, Box::new(RAM::new(1024, 16, 4, 2)));
    let mut regs = Registers::default();
    regs.set_reg(Register::R1, 55);
    regs.set_reg(Register::R2, 0x800);

    let mut store = Instruction::new();
    store.instr_type = InstrType::Memory(MemoryType::STR);
    store.reg_1 = Register::R1;
    store.reg_2 = Register::R2;
    // the slot has another tag than the address: the line comes up first
    assert_eq!(memory(&mut mem, &regs, &mut store), StageResult::WAIT);
    assert!(store.meta.writeback);
    assert_eq!(memory(&mut mem, &regs, &mut store), StageResult::DONE);
    assert!(!store.meta.writeback);
    assert_eq!(mem.view_line(0)[1][0], 55);

    let mut load = Instruction::new();
    load.instr_type = InstrType::Memory(MemoryType::LDR);
    load.reg_1 = Register::R3;
    load.reg_2 = Register::R2;
    assert_eq!(memory(&mut mem, &regs, &mut load), StageResult::DONE);
    assert_eq!(load.meta.result, 55);
    assert!(load.meta.writeback);

    let mut other = Instruction::new();
    let before = other;
    assert_eq!(memory(&mut mem, &regs, &mut other), StageResult::DONE);
    assert_eq!(other, before);
}

#[test]
fn writeback_commits_and_releases() {
    let mut mem = small_memory();
    let mut regs = Registers::default();
    regs.set_in_use(Register::R4, true);
    regs.set_in_use(Register::R5, true);
    let mut instr = Instruction::new();
    instr.dest = Register::R4;
    instr.meta.result = 31;
    assert_eq!(writeback(&mut mem, &mut regs, &instr), StageResult::DONE);
    assert_eq!(regs.get_reg(Register::R4), 31);
    assert!(!regs.is_in_use(Register::R4));
    assert!(regs.is_in_use(Register::R5));

    // switched off: released, not written
    instr.dest = Register::R5;
    instr.meta.writeback = false;
    assert_eq!(writeback(&mut mem, &mut regs, &instr), StageResult::DONE);
    assert_eq!(regs.get_reg(Register::R5), 0);
    assert!(!regs.is_in_use(Register::R5));
}

#[test]
fn writeback_of_a_squashed_instruction_does_nothing() {
    let mut mem = Cache::new(2048, 16, 4, 1, 2, Box::new(RAM::new(1024, 16, 4, 3)));
    assert_eq!(mem.read(0, StageType::Fetch, false), None);
    let mut regs = Registers::default();
    regs.set_in_use(Register::PC, true);
    let mut instr = Instruction::new();
    instr.instr_type = InstrType::Control(ControlType::B);
    instr.dest = Register::PC;
    instr.meta.result = 0x40;
    instr.meta.squashed = true;
    assert_eq!(writeback(&mut mem, &mut regs, &instr), StageResult::DONE);
    assert_eq!(regs.get_reg(Register::PC), 0);
    assert!(regs.is_in_use(Register::PC));
    assert_eq!(mem.view_access()[1].stage, Some(StageType::Fetch));
}

#[test]
fn taken_branch_redirects_and_releases_everything() {
    let mut mem = Cache::new(2048, 16, 4, 1, 2, Box::new(RAM::new(1024, 16, 4, 3)));
    assert_eq!(mem.read(0, StageType::Fetch, false), None);
    let mut regs = Registers::default();
    regs.set_in_use(Register::PC, true);
    regs.set_in_use(Register::R7, true);
    let mut instr = Instruction::new();
    instr.instr_type = InstrType::Control(ControlType::B);
    instr.dest = Register::PC;
    instr.meta.result = 0x40;
    assert_eq!(writeback(&mut mem, &mut regs, &instr), StageResult::SQUASH);
    assert_eq!(regs.get_reg(Register::PC), 0x40);
    assert_eq!(regs.in_use, [false; 16]);
    assert_eq!(mem.view_access()[0].stage, None);
    assert_eq!(mem.view_access()[1].stage, None);
    assert_eq!(mem.view_access()[0].cycles_to_completion, 3);

    // not taken: an ordinary instruction that writes nothing
    instr.meta.writeback = false;
    regs.set_in_use(Register::R7, true);
    assert_eq!(writeback(&mut mem, &mut regs, &instr), StageResult::DONE);
    assert!(regs.is_in_use(Register::R7));
}

#[test]
fn halt_is_reported_by_writeback() {
    let mut mem = small_memory();
    let mut regs = Registers::default();
    let mut instr = Instruction::new();
    instr.instr_type = InstrType::Interrupt(InterruptType::HLT);
    assert_eq!(writeback(&mut mem, &mut regs, &instr), StageResult::HALT);
    instr.instr_type = InstrType::Interrupt(InterruptType::NOP);
    assert_eq!(writeback(&mut mem, &mut regs, &instr), StageResult::DONE);
}

#[test]
fn process_dispatches_on_the_kind_of_stage() {
    let mut mem = small_memory();
    let mut regs = Registers::default();
    let mut instr = with_raw(0x0084_002A);
    assert_eq!(process(StageType::Decode, &mut mem, &mut regs, &mut instr), StageResult::DONE);
    assert_eq!(instr.imm, 42);
    assert_eq!(process(StageType::Execute, &mut mem, &mut regs, &mut instr), StageResult::DONE);
    assert_eq!(instr.meta.result, 42);
    assert_eq!(process(StageType::Memory, &mut mem, &mut regs, &mut instr), StageResult::DONE);
    assert_eq!(process(StageType::Writeback, &mut mem, &mut regs, &mut instr), StageResult::DONE);
    assert_eq!(regs.get_reg(Register::R1), 42);
    let mut next = Instruction::new();
    assert_eq!(process(StageType::Fetch, &mut mem, &mut regs, &mut next), StageResult::DONE);
    assert_eq!(regs.get_reg(Register::PC), 4);
    assert_eq!(mem.write(0, &MemoryValue::Value(1), StageType::Memory), true);
}
