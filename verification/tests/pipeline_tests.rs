use simulator::assembler::assemble;
use simulator::memory::{Cache, MemoryAccess, RAM};
use simulator::processor::instruction::{Fault, Instruction};
use simulator::processor::pipeline::{Stage, StageResult, StageType};
use simulator::processor::registers::Registers;
use simulator::Simulator;

const PC: usize = 15;
const BF: usize = 13;

fn loaded(program: &str) -> Simulator {
    let mut sim = Simulator::new();
    let words = assemble(program).unwrap();
    sim.flash(0, &words);
    sim
}

fn in_flight(sim: &Simulator) -> usize {
    sim.view_pipeline_instrs()
        .into_iter()
        .filter(|held| matches!(held, Some(instr) if instr.meta.initialized))
        .count()
}

#[test]
fn mov_immediate() {
    let mut sim = loaded("MOV R1, 42");
    // the first word comes from main memory: five cycles
    for _ in 0..4 {
        sim.cycle();
        assert_eq!(sim.view_registers()[PC], 0);
    }
    sim.cycle();
    assert_eq!(sim.view_registers()[PC], 4);
    assert_eq!(sim.view_register_status(), [false; 16]);
    // Decode reserves the destination
    sim.cycle();
    assert!(sim.view_register_status()[1]);
    assert_eq!(sim.view_registers()[1], 0);
    // Execute, Memory, Writeback
    sim.cycle();
    sim.cycle();
    assert_eq!(sim.view_registers()[1], 0);
    sim.cycle();
    assert_eq!(sim.view_registers()[1], 42);
    assert!(!sim.view_register_status()[1]);
    assert_eq!(sim.view_cycles(), 9);
}

#[test]
fn add_two_registers() {
    let mut sim = loaded("MOV R1, 3\nMOV R2, 4\nADD R1, R2");
    let mut stalled = false;
    for _ in 0..30 {
        sim.cycle();
        let held = sim.view_pipeline_instrs();
        let status = sim.view_pipeline_status();
        // the ADD waits in Decode while a register it names is reserved
        if let Some(instr) = held[1] {
            if instr.instr_raw == 0x0204_8000 && status[1] == StageResult::WAIT {
                let busy = sim.view_register_status();
                assert!(busy[1] || busy[2]);
                stalled = true;
            }
        }
    }
    assert!(stalled);
    assert_eq!(sim.view_registers()[1], 7);
    assert_eq!(sim.view_registers()[2], 4);
}

#[test]
fn taken_branch_squashes() {
    let mut sim = loaded("MOV R1, 5\nCMP R1, R1\nBEQ 0x100\nMOV R2, 99");
    let mut counters = vec![];
    for _ in 0..40 {
        sim.cycle();
        assert_eq!(sim.view_registers()[2], 0);
        let pc = sim.view_registers()[PC];
        if counters.last() != Some(&pc) {
            counters.push(pc);
        }
    }
    assert_eq!(sim.view_registers()[1], 5);
    assert_eq!(sim.view_registers()[BF], 0);
    // words are fetched one after the other until the branch redirects
    let redirect = counters.iter().position(|pc| *pc == 0x100).unwrap();
    for (i, pc) in counters[..redirect].iter().enumerate() {
        assert_eq!(*pc, 4 * i as i32);
    }
    assert!(redirect >= 4);
    assert_eq!(counters[redirect + 1], 0x104);
}

#[test]
fn branch_not_taken_falls_through() {
    let mut sim = loaded("MOV R1, 5\nCMP R1, R0\nBEQ 0x100\nMOV R2, 99\nHLT");
    let mut n = 0;
    while sim.cycle() {
        n += 1;
        assert!(n < 200);
    }
    assert_eq!(sim.view_registers()[BF], 5);
    assert_eq!(sim.view_registers()[2], 99);
    assert!(sim.view_registers()[PC] < 0x100);
}

#[test]
fn store_load_through_cache() {
    let mut sim = loaded("MOV R1, 123\nSTR R1, 0x40\nLDR R2, 0x40");
    for _ in 0..40 {
        sim.cycle();
    }
    assert_eq!(sim.view_registers()[2], 123);
    // the address is the second operand, which a register and a number do not have
    let lines = sim.view_line(0);
    assert_eq!(lines[1][0], 123);
    // write-back: main memory still has the first word of the program
    assert_eq!(lines[0][0], 0x0084_007B);
}

#[test]
fn store_and_load_at_the_address_in_a_register() {
    let mut sim = loaded("MOV R1, 77\nMOV R2, 0x800\nSTR R1, R2\nLDR R3, R2\nHLT");
    let mut n = 0;
    while sim.cycle() {
        n += 1;
        assert!(n < 300);
    }
    assert_eq!(sim.view_registers()[3], 77);
    assert_eq!(sim.view_fault(), None);
}

#[test]
fn hlt_terminates() {
    let mut sim = loaded("MOV R1, 1\nHLT");
    let mut n = 0;
    while sim.cycle() {
        n += 1;
        assert!(n < 100);
    }
    assert_eq!(sim.view_registers()[1], 1);
    assert_eq!(sim.view_pipeline_status()[4], StageResult::HALT);
    assert_eq!(sim.view_fault(), None);

    let registers = sim.view_registers();
    let status = sim.view_register_status();
    let cycles = sim.view_cycles();
    let held: Vec<Option<Instruction>> = sim.view_pipeline_instrs().into_iter().map(|i| *i).collect();
    assert!(!sim.cycle());
    assert!(!sim.cycle());
    assert_eq!(sim.view_registers(), registers);
    assert_eq!(sim.view_register_status(), status);
    assert_eq!(sim.view_cycles(), cycles);
    let after: Vec<Option<Instruction>> = sim.view_pipeline_instrs().into_iter().map(|i| *i).collect();
    assert_eq!(after, held);
}

#[test]
fn at_most_five_instructions_in_flight() {
    let mut sim = loaded("MOV R1, 3\nMOV R2, 4\nADD R1, R2\nSTR R1, R2\nLDR R3, R2\nB 0\nHLT");
    for _ in 0..200 {
        sim.cycle();
        assert!(in_flight(&sim) <= 5);
        assert_eq!(sim.view_pipeline_instrs().len(), 5);
        assert_eq!(sim.view_pipeline_status().len(), 5);
    }
}

#[test]
fn a_word_that_is_no_instruction_halts_the_processor() {
    let mut sim = Simulator::new();
    sim.flash(0, &vec![0x0084_0007, 0xE000_0000]);
    let mut n = 0;
    while sim.cycle() {
        n += 1;
        assert!(n < 100);
    }
    assert_eq!(sim.view_fault(), Some(Fault::InvalidClass));
    assert_eq!(sim.view_pipeline_status()[1..], [StageResult::HALT; 4]);
    assert!(!sim.cycle());
}

#[test]
fn division_by_zero_halts_the_processor() {
    let mut sim = loaded("MOV R1, 1\nIDIV R1, R2");
    let mut n = 0;
    while sim.cycle() {
        n += 1;
        assert!(n < 100);
    }
    assert_eq!(sim.view_fault(), Some(Fault::DivisionByZero));
    assert_eq!(sim.view_registers()[1], 1);
}

#[test]
fn reset_gives_the_snapshot_of_a_new_simulator() {
    let mut sim = loaded("MOV R1, 3\nSTR R1, R2\nMOV R2, 4\nHLT");
    for _ in 0..17 {
        sim.cycle();
    }
    sim.reset();
    let fresh = Simulator::new();
    assert_eq!(sim.view_registers(), fresh.view_registers());
    assert_eq!(sim.view_register_status(), fresh.view_register_status());
    assert_eq!(sim.view_cycles(), 0);
    assert_eq!(sim.view_pipeline_status(), fresh.view_pipeline_status());
    assert_eq!(sim.view_pipeline_status(), vec![StageResult::DONE; 5]);
    assert_eq!(sim.view_pipeline_instrs(), fresh.view_pipeline_instrs());
    assert_eq!(sim.view_size(), fresh.view_size());
    assert_eq!(sim.view_size(), vec![65536, 16384]);
    assert_eq!(sim.view_access(), fresh.view_access());
    assert_eq!(*sim.view_access()[0], MemoryAccess { latency: 5, cycles_to_completion: 5, stage: None });
    for line in 0..300 {
        assert_eq!(sim.view_line(line), fresh.view_line(line));
    }
    assert_eq!(sim.view_fault(), None);
    // and it runs as a new one does
    assert!(sim.cycle());
    assert_eq!(sim.view_cycles(), 1);
}

#[test]
fn flash_puts_the_program_at_the_address() {
    let mut sim = Simulator::new();
    sim.flash(64, &vec![0xFFFF_FFFF, 2]);
    assert_eq!(sim.view_line(1)[0][0], 0xFFFF_FFFF);
    assert_eq!(sim.view_line(1)[0][1], 2);
    assert_eq!(*sim.view_line(0)[0], vec![0; 16]);
}

#[test]
fn new_pipeline_has_five_empty_stages() {
    let head = simulator::processor::new();
    assert_eq!(head.view_pipeline_status(), vec![StageResult::DONE; 5]);
    assert!(head.view_pipeline_instrs().into_iter().all(|held| held.is_none()));
    assert_eq!(head.view_cycles(), 0);
    assert!(head.is_head);
    assert_eq!(head.stage_type, StageType::Writeback);
    let mut kinds = vec![];
    let mut stage: &Stage = &head;
    loop {
        kinds.push(stage.stage_type);
        match &stage.prev_stage {
            Some(prev) => stage = prev,
            None => break,
        }
    }
    assert_eq!(
        kinds,
        vec![StageType::Writeback, StageType::Memory, StageType::Execute, StageType::Decode, StageType::Fetch]
    );
}

#[test]
fn load_takes_the_instruction_of_a_predecessor_that_is_done() {
    let mut fetch = Stage::create(StageType::Fetch, None, false);
    let mut instr = Instruction::new();
    instr.instr_raw = 7;
    fetch.instruction = Some(instr);
    let mut decode = Stage::create(StageType::Decode, None, false);
    decode.set_prev(Box::new(fetch));
    decode.load();
    assert_eq!(decode.instruction, Some(instr));
    let prev = decode.prev_stage.as_ref().unwrap();
    assert_eq!(prev.instruction, None);
    assert_eq!(prev.status, StageResult::WAIT);
    // a predecessor that waits keeps its instruction
    let mut waiting = Stage::create(StageType::Fetch, None, false);
    waiting.instruction = Some(instr);
    waiting.status = StageResult::WAIT;
    let mut next = Stage::create(StageType::Decode, Some(Box::new(waiting)), false);
    next.load();
    assert_eq!(next.instruction, None);
}

#[test]
fn first_stage_makes_up_a_placeholder() {
    let mut fetch = Stage::create(StageType::Fetch, None, false);
    fetch.load();
    assert_eq!(fetch.instruction, Some(Instruction::new()));
    let mut off = Stage::create(StageType::Fetch, None, false);
    off.pipeline_on = false;
    off.load();
    assert_eq!(off.instruction, None);
}

#[test]
fn squash_kills_what_fetch_has_read_and_spares_placeholders() {
    let mut read = Instruction::new();
    read.meta.initialized = true;
    let mut fetch = Stage::create(StageType::Fetch, None, false);
    fetch.instruction = Some(Instruction::new());
    let mut decode = Stage::create(StageType::Decode, Some(Box::new(fetch)), false);
    decode.instruction = Some(read);
    decode.squash();
    assert!(decode.instruction.unwrap().meta.squashed);
    assert!(!decode.prev_stage.as_ref().unwrap().instruction.unwrap().meta.squashed);
}

#[test]
fn transfer_empties_the_stage() {
    let mut stage = Stage::create(StageType::Execute, None, false);
    let instr = Instruction::new();
    stage.instruction = Some(instr);
    assert_eq!(stage.transfer(), Some(instr));
    assert_eq!(stage.instruction, None);
    assert_eq!(stage.status, StageResult::WAIT);
}

#[test]
fn stage_reset_empties_the_chain_and_zeroes_the_registers() {
    let mut regs = Registers::default();
    regs.registers[3] = 9;
    regs.in_use[4] = true;
    let mut fetch = Stage::create(StageType::Fetch, None, false);
    fetch.instruction = Some(Instruction::new());
    fetch.status = StageResult::WAIT;
    let mut head = Stage::create(StageType::Decode, Some(Box::new(fetch)), true);
    head.status = StageResult::HALT;
    head.cycles = 12;
    head.reset(&mut regs);
    assert_eq!(head.view_pipeline_status(), vec![StageResult::DONE; 2]);
    assert_eq!(head.view_pipeline_instrs(), vec![&None, &None]);
    assert_eq!(head.view_cycles(), 0);
    assert_eq!(regs.registers, [0; 16]);
    assert_eq!(regs.in_use, [false; 16]);
}

#[test]
fn squashed_instruction_leaves_no_trace_at_the_head() {
    let mut mem = Cache::new(2048, 16, 4, 1, 2, Box::new(RAM::new(1024, 16, 4, 1)));
    let mut regs = Registers::default();
    let mut head = simulator::processor::new();
    let mut instr = Instruction::new();
    instr.meta.initialized = true;
    instr.meta.squashed = true;
    instr.meta.result = 55;
    head.instruction = Some(instr);
    regs.in_use[0] = true;
    assert!(head.cycle(&mut mem, &mut regs));
    assert_eq!(regs.registers[0], 0);
    assert!(regs.in_use[0]);
    assert_eq!(*head.view_pipeline_instrs()[4], None);
    assert_eq!(head.view_cycles(), 1);
}
