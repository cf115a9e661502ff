use simulator::memory::cache::{hashed_slot, ilog2, ReplacementPolicy};
use simulator::memory::{Cache, Memory, MemoryAccess, MemoryValue, Transparency, RAM};
use simulator::processor::pipeline::StageType;

fn new_mem() -> Box<Cache<RAM>> {
    let ram = Box::new(RAM::new(4194304, 16, 4, 5));
    let cache = Box::new(Cache::new(2048, 16, 4, 1, 2, ram));
    cache
}

fn line_from(first: usize) -> Vec<usize> {
    (first..first + 16).collect()
}

/// Repeats a write until it is carried out and returns the number of attempts.
fn write_until_done<M: Memory>(mem: &mut M, addr: usize, value: &MemoryValue, stage: StageType) -> usize {
    let mut attempts = 1;
    while !mem.write(addr, value, stage) {
        attempts += 1;
        assert!(attempts < 100);
    }
    attempts
}

/// Repeats a read until it is answered and returns the answer with the number of attempts.
fn read_until_done<M: Memory>(mem: &mut M, addr: usize, stage: StageType, line: bool) -> (MemoryValue, usize) {
    let mut attempts = 1;
    loop {
        if let Some(value) = mem.read(addr, stage, line) {
            return (value, attempts);
        }
        attempts += 1;
        assert!(attempts < 100);
    }
}

#[test]
fn read_from_cache() {
    let mut mem = new_mem();

    mem.write(8, &MemoryValue::Value(30), StageType::Fetch);
    if let MemoryValue::Value(x) = mem.read(8, StageType::Fetch, false).unwrap() {
        assert_eq!(30, x);
    } else {
        panic!("No value returned")
    }
}

#[test]
fn access_is_granted_on_the_attempt_that_equals_the_latency() {
    let mut access = MemoryAccess::new(3, None);
    assert!(!access.attempt_access(StageType::Fetch));
    assert_eq!(access.stage, Some(StageType::Fetch));
    assert_eq!(access.cycles_to_completion, 2);
    assert!(!access.attempt_access(StageType::Fetch));
    assert!(access.attempt_access(StageType::Fetch));
    assert_eq!(access.cycles_to_completion, 0);
    access.reset_access_state();
    assert_eq!(access, MemoryAccess { latency: 3, cycles_to_completion: 3, stage: None });
}

#[test]
fn latency_one_is_granted_at_once() {
    let mut access = MemoryAccess::new(1, None);
    assert!(access.attempt_access(StageType::Memory));
    let mut zero = MemoryAccess::new(0, None);
    assert!(zero.attempt_access(StageType::Memory));
}

#[test]
fn countdown_stops_at_the_least_value() {
    let mut access = MemoryAccess { latency: 1, cycles_to_completion: i32::MIN, stage: None };
    assert!(access.attempt_access(StageType::Fetch));
    assert_eq!(access.cycles_to_completion, i32::MIN);
}

#[test]
fn another_stage_is_kept_out_and_changes_nothing() {
    let mut access = MemoryAccess::new(3, None);
    access.attempt_access(StageType::Fetch);
    let before = access;
    assert!(!access.attempt_access(StageType::Memory));
    assert_eq!(access, before);
}

#[test]
fn ram_answers_after_exactly_its_latency() {
    let mut ram = RAM::new(64, 16, 4, 5);
    for _ in 0..4 {
        assert_eq!(ram.read(0, StageType::Fetch, false), None);
    }
    assert_eq!(ram.read(0, StageType::Fetch, false), Some(MemoryValue::Value(0)));
    // the access starts over
    assert_eq!(ram.read(0, StageType::Fetch, false), None);
}

#[test]
fn owned_ram_rejects_the_other_stage_until_the_owner_is_done() {
    let mut ram = RAM::new(64, 16, 4, 2);
    assert_eq!(ram.read(0, StageType::Fetch, false), None);
    assert_eq!(ram.read(0, StageType::Memory, false), None);
    assert!(!ram.write(0, &MemoryValue::Value(7), StageType::Memory));
    assert_eq!(*ram.view_access()[0], MemoryAccess { latency: 2, cycles_to_completion: 1, stage: Some(StageType::Fetch) });
    assert_eq!(ram.read(0, StageType::Fetch, false), Some(MemoryValue::Value(0)));
    // now free: the other stage starts its own access
    assert!(!ram.write(0, &MemoryValue::Value(7), StageType::Memory));
    assert!(ram.write(0, &MemoryValue::Value(7), StageType::Memory));
    assert_eq!(ram.view_line(0)[0][0], 7);
}

#[test]
fn owned_cache_rejects_the_other_stage() {
    let mut mem = new_mem();
    // a miss: the cache stays with Fetch while main memory counts down
    assert_eq!(mem.read(0, StageType::Fetch, false), None);
    let before: Vec<MemoryAccess> = mem.view_access().into_iter().map(|a| *a).collect();
    assert_eq!(mem.read(0, StageType::Memory, false), None);
    assert!(!mem.write(0, &MemoryValue::Value(1), StageType::Memory));
    let after: Vec<MemoryAccess> = mem.view_access().into_iter().map(|a| *a).collect();
    assert_eq!(before, after);
    assert_eq!(after[1].stage, Some(StageType::Fetch));
    assert_eq!(after[0], MemoryAccess { latency: 5, cycles_to_completion: 4, stage: Some(StageType::Fetch) });
}

#[test]
fn ram_maps_addresses_to_lines_and_offsets() {
    let mut ram = RAM::new(8, 4, 4, 1);
    // word 5: line (5 % 8) / 4 = 1, offset 5 % 4 = 1
    assert!(ram.write(20, &MemoryValue::Value(11), StageType::Memory));
    assert_eq!(*ram.view_line(1)[0], vec![0, 11, 0, 0]);
    // an unaligned address belongs to the word that holds it
    assert!(ram.write(23, &MemoryValue::Value(12), StageType::Memory));
    assert_eq!(*ram.view_line(1)[0], vec![0, 12, 0, 0]);
    // word 9 wraps at 8 words: line (9 % 8) / 4 = 0, offset 9 % 4 = 1
    assert!(ram.write(36, &MemoryValue::Value(13), StageType::Memory));
    assert_eq!(*ram.view_line(0)[0], vec![0, 13, 0, 0]);
    assert_eq!(ram.read(36, StageType::Fetch, false), Some(MemoryValue::Value(13)));
    assert_eq!(ram.read(20, StageType::Fetch, true), Some(MemoryValue::Line(vec![0, 12, 0, 0])));
}

#[test]
fn cache_maps_addresses_to_sets_tags_and_offsets() {
    let mut mem = new_mem();
    // address 1102 lies in word 275: offset 275 % 16 = 3, block 17, set (17 * 2) % 32 = 2,
    // tag 1100 / 1024 = 1
    assert_eq!(write_until_done(&mut *mem, 1102, &MemoryValue::Value(9), StageType::Memory), 5);
    let mut expected = vec![0; 16];
    expected[3] = 9;
    assert_eq!(*mem.view_line(2)[1], expected);
    assert_eq!(*mem.view_line(3)[1], vec![0; 16]);
    // address 3150 has the same set and offset, and tag 3: it takes the next slot
    assert_eq!(write_until_done(&mut *mem, 3150, &MemoryValue::Value(8), StageType::Memory), 5);
    expected[3] = 8;
    assert_eq!(*mem.view_line(3)[1], expected);
    assert_eq!(mem.read(1100, StageType::Fetch, false), Some(MemoryValue::Value(9)));
    assert_eq!(mem.read(3148, StageType::Fetch, false), Some(MemoryValue::Value(8)));
}

#[test]
fn a_copy_of_a_value_is_equal_to_it() {
    let line = MemoryValue::Line(line_from(3));
    assert_eq!(line.clone(), line);
    assert_eq!(MemoryValue::Value(4).clone(), MemoryValue::Value(4));
}

#[test]
fn ram_line_written_is_line_read() {
    let mut ram = RAM::new(64, 16, 4, 1);
    assert!(ram.write(128, &MemoryValue::Line(line_from(100)), StageType::Memory));
    assert_eq!(ram.read(128, StageType::Fetch, true), Some(MemoryValue::Line(line_from(100))));
    assert_eq!(ram.read(132, StageType::Fetch, false), Some(MemoryValue::Value(101)));
}

#[test]
fn ram_views() {
    let ram = RAM::new(64, 16, 4, 5);
    assert_eq!(ram.view_size(), vec![64]);
    assert_eq!(*ram.view_access()[0], MemoryAccess { latency: 5, cycles_to_completion: 5, stage: None });
    assert_eq!(ram.view_line(3).len(), 1);
    assert_eq!(*ram.view_line(3)[0], vec![0; 16]);
}

#[test]
fn a_line_that_does_not_exist_shows_line_zero() {
    let mut mem = new_mem();
    mem.write(0, &MemoryValue::Line(line_from(1)), StageType::Fetch);
    // the cache has 32 slots; main memory has the line but the cache shows slot 0
    let lines = mem.view_line(40);
    assert_eq!(*lines[0], vec![0; 16]);
    assert_eq!(*lines[1], line_from(1));
}

#[test]
fn flash_writes_words_four_bytes_apart_without_latency() {
    let mut mem = new_mem();
    mem.flash(60, &[1, 2, 3]);
    let first = mem.view_line(0);
    assert_eq!(first[0][15], 1);
    assert_eq!(*first[1], vec![0; 16]);
    let second = mem.view_line(1);
    assert_eq!(second[0][0], 2);
    assert_eq!(second[0][1], 3);
    // no access was taken
    assert_eq!(mem.view_access()[0].stage, None);
    assert_eq!(mem.view_access()[1].stage, None);
}

#[test]
fn cache_views_show_the_deepest_level_first() {
    let mem = new_mem();
    assert_eq!(mem.view_size(), vec![4194304, 2048]);
    let access = mem.view_access();
    assert_eq!(access[0].latency, 5);
    assert_eq!(access[1].latency, 1);
    assert_eq!(mem.view_line(0).len(), 2);
}

#[test]
fn value_written_is_value_read_through_cache_and_ram() {
    let mut mem = new_mem();
    // tag 2: the write first brings the line up from main memory
    let attempts = write_until_done(&mut *mem, 2056, &MemoryValue::Value(77), StageType::Memory);
    assert_eq!(attempts, 5);
    let (value, attempts) = read_until_done(&mut *mem, 2056, StageType::Fetch, false);
    assert_eq!(value, MemoryValue::Value(77));
    assert_eq!(attempts, 1);
    // the unaligned address reads the same word
    assert_eq!(mem.read(2058, StageType::Fetch, false), Some(MemoryValue::Value(77)));
    // write-back: main memory does not have the word yet
    assert_eq!(mem.view_line(32)[0][2], 0);
}

#[test]
fn line_written_is_line_read() {
    let mut mem = new_mem();
    assert!(mem.write(0, &MemoryValue::Line(line_from(0)), StageType::Fetch));
    assert_eq!(mem.read(0, StageType::Memory, true), Some(MemoryValue::Line(line_from(0))));
    assert_eq!(mem.read(12, StageType::Memory, false), Some(MemoryValue::Value(3)));
}

#[test]
fn read_miss_fills_a_clean_line() {
    let mut mem = new_mem();
    mem.flash(0, &[5, 6, 7]);
    let (value, attempts) = read_until_done(&mut *mem, 4, StageType::Fetch, false);
    assert_eq!(value, MemoryValue::Value(6));
    assert_eq!(attempts, 5);
    let (line, attempts) = read_until_done(&mut *mem, 0, StageType::Fetch, true);
    assert_eq!(attempts, 1);
    let mut expected = vec![0; 16];
    expected[0] = 5;
    expected[1] = 6;
    expected[2] = 7;
    assert_eq!(line, MemoryValue::Line(expected));
}

#[test]
fn third_line_replaces_the_least_used_and_writes_it_back() {
    let mut mem = new_mem();
    let a = MemoryValue::Line(line_from(0));
    let b = MemoryValue::Line(line_from(16));
    let c = MemoryValue::Line(line_from(32));

    assert_eq!(write_until_done(&mut *mem, 0, &a, StageType::Fetch), 1);
    assert_eq!(write_until_done(&mut *mem, 2048, &b, StageType::Memory), 5);
    // use the first line until it is used more than the second
    assert_eq!(mem.read(0, StageType::Fetch, true), Some(a.clone()));
    assert_eq!(mem.read(0, StageType::Fetch, true), Some(a.clone()));
    // five attempts hand the second line down, four more bring the third up
    assert_eq!(write_until_done(&mut *mem, 4096, &c, StageType::Fetch), 9);

    assert_eq!(*mem.view_line(0)[1], line_from(0));
    assert_eq!(*mem.view_line(1)[1], line_from(32));
    // the second line went to main memory, the first did not
    assert_eq!(*mem.view_line(32)[0], line_from(16));
    assert_eq!(*mem.view_line(0)[0], vec![0; 16]);
    // and it comes back from there
    let (value, _) = read_until_done(&mut *mem, 2048, StageType::Memory, true);
    assert_eq!(value, b);
}

#[test]
fn eviction_write_back() {
    let mut mem = new_mem();
    write_until_done(&mut *mem, 0, &MemoryValue::Value(111), StageType::Memory);
    write_until_done(&mut *mem, 2048, &MemoryValue::Value(222), StageType::Memory);
    write_until_done(&mut *mem, 4096, &MemoryValue::Value(333), StageType::Memory);
    let (first, _) = read_until_done(&mut *mem, 0, StageType::Memory, false);
    assert_eq!(first, MemoryValue::Value(111));
    assert_eq!(mem.view_line(0)[0][0], 111);
    let (second, _) = read_until_done(&mut *mem, 2048, StageType::Memory, false);
    assert_eq!(second, MemoryValue::Value(222));
    let (third, _) = read_until_done(&mut *mem, 4096, StageType::Memory, false);
    assert_eq!(third, MemoryValue::Value(333));
}

#[test]
fn clean_line_is_replaced_without_write_back() {
    let mut mem = new_mem();
    mem.flash(0, &[9]);
    read_until_done(&mut *mem, 0, StageType::Fetch, false);
    read_until_done(&mut *mem, 2048, StageType::Fetch, false);
    // both slots valid and clean: the third read takes five attempts, not ten
    let (_, attempts) = read_until_done(&mut *mem, 4096, StageType::Fetch, false);
    assert_eq!(attempts, 5);
    assert_eq!(mem.view_line(0)[0][0], 9);
}

#[test]
fn hashed_policy_replaces_the_slot_that_the_hash_picks() {
    let ram = Box::new(RAM::new(4194304, 16, 4, 5));
    let mut mem = Cache::new(2048, 16, 4, 1, 2, ram).with_policy(ReplacementPolicy::Hashed);
    write_until_done(&mut mem, 0, &MemoryValue::Line(line_from(0)), StageType::Fetch);
    write_until_done(&mut mem, 2048, &MemoryValue::Line(line_from(16)), StageType::Fetch);
    write_until_done(&mut mem, 4096, &MemoryValue::Line(line_from(32)), StageType::Fetch);
    // address 4096 has tag 4 in set 0: the key is 4 ^ 0
    let slot = (xxhash_rust::xxh3::xxh3_64(&[4]) % 2) as usize;
    assert_eq!(*mem.view_line(slot)[1], line_from(32));
    let kept = if slot == 0 { line_from(16) } else { line_from(0) };
    assert_eq!(*mem.view_line(1 - slot)[1], kept);
    // the same line picks the same slot again
    write_until_done(&mut mem, 6144, &MemoryValue::Line(line_from(48)), StageType::Fetch);
    let next = (xxhash_rust::xxh3::xxh3_64(&[6]) % 2) as usize;
    assert_eq!(*mem.view_line(next)[1], line_from(48));
}

#[test]
fn hashed_slot_is_index_plus_hash_modulo_associativity() {
    assert_eq!(hashed_slot(6, 4, 13), 7);
    assert_eq!(hashed_slot(0, 2, 8), 0);
    assert_eq!(hashed_slot(10, 1, u64::MAX), 10);
}

#[test]
fn binary_logarithm() {
    assert_eq!(ilog2(0), 0);
    assert_eq!(ilog2(1), 0);
    assert_eq!(ilog2(5), 2);
    assert_eq!(ilog2(8), 3);
    assert_eq!(ilog2(1023), 9);
    assert_eq!(ilog2(usize::MAX), (usize::BITS - 1) as usize);
}

#[test]
fn use_counts_above_four_decay_before_the_choice() {
    let mut mem = new_mem();
    let a = MemoryValue::Line(line_from(0));
    let b = MemoryValue::Line(line_from(16));
    let c = MemoryValue::Line(line_from(32));
    write_until_done(&mut *mem, 0, &a, StageType::Fetch);
    write_until_done(&mut *mem, 2048, &b, StageType::Fetch);
    // first line: 1 + 7 = 8 uses, which decay to 3; second line: 2 + 1 = 3 uses
    for _ in 0..7 {
        mem.read(0, StageType::Fetch, true);
    }
    mem.read(2048, StageType::Fetch, true);
    // a tie after decay: the earlier slot gives way
    write_until_done(&mut *mem, 4096, &c, StageType::Fetch);
    assert_eq!(*mem.view_line(0)[1], line_from(32));
    assert_eq!(*mem.view_line(1)[1], line_from(16));
}

#[test]
fn reset_state_releases_every_level() {
    let mut mem = new_mem();
    assert_eq!(mem.read(0, StageType::Fetch, false), None);
    mem.reset_state();
    assert_eq!(*mem.view_access()[0], MemoryAccess { latency: 5, cycles_to_completion: 5, stage: None });
    assert_eq!(*mem.view_access()[1], MemoryAccess { latency: 1, cycles_to_completion: 1, stage: None });
}

#[test]
fn reset_zeroes_every_level() {
    let mut mem = new_mem();
    mem.flash(0, &[1, 2, 3]);
    write_until_done(&mut *mem, 0, &MemoryValue::Value(5), StageType::Fetch);
    mem.read(2048, StageType::Memory, false);
    mem.reset();
    assert_eq!(*mem.view_line(0)[0], vec![0; 16]);
    assert_eq!(*mem.view_line(0)[1], vec![0; 16]);
    assert_eq!(mem.view_access()[0].stage, None);
    assert_eq!(mem.view_access()[1].stage, None);
    // the cache is empty again: a read goes down to main memory
    let (value, attempts) = read_until_done(&mut *mem, 0, StageType::Fetch, false);
    assert_eq!(value, MemoryValue::Value(0));
    assert_eq!(attempts, 5);
}
