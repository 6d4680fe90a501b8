use bin_ast::address::{Address, Interval};
use bin_ast::ir::pcode::DecodedInstruction;
use bin_ast::memory::interval_map::{IntervalMap, NotFound};
use bin_ast::memory::literal::{LiteralKind, LiteralState};
use bin_ast::memory::marking::{is_run, mark_instructions, pending_bytes};
use bin_ast::memory::Memory;

fn range(start: u64, end: u64) -> Interval {
    Interval::new(Address(start), Address(end))
}

fn plain(start: u64, end: u64) -> DecodedInstruction {
    DecodedInstruction { inst_start: start, inst_next: end, ops: Vec::new() }
}

fn ranges_of(memory: &Memory) -> Vec<(u64, u64, bool)> {
    let mut out = Vec::new();
    for i in 0..memory.literal.len() {
        let entry = memory.literal.entry(i);
        out.push((entry.0.start.0, entry.0.end.0, entry.1.is_data()));
    }
    out
}

#[test]
fn strict_insert_refuses_overlap() {
    let mut map: IntervalMap<u32> = IntervalMap::new();
    assert!(map.insert_strict(range(0x10, 0x20), 1).is_ok());
    assert!(map.insert_strict(range(0x20, 0x30), 2).is_ok());
    let err = map.insert_strict(range(0x1f, 0x21), 3).unwrap_err();
    assert_eq!(err.existing, range(0x10, 0x20));
    assert_eq!(map.len(), 2);
}

#[test]
fn strict_insert_keeps_address_order() {
    let mut map: IntervalMap<u32> = IntervalMap::new();
    map.insert_strict(range(0x30, 0x40), 3).unwrap();
    map.insert_strict(range(0x10, 0x20), 1).unwrap();
    map.insert_strict(range(0x20, 0x30), 2).unwrap();
    assert_eq!(map.len(), 3);
    assert_eq!(*map.entry(0), (range(0x10, 0x20), 1));
    assert_eq!(*map.entry(1), (range(0x20, 0x30), 2));
    assert_eq!(*map.entry(2), (range(0x30, 0x40), 3));
}

#[test]
fn empty_range_is_accepted_and_leaves_nothing() {
    let mut map: IntervalMap<u32> = IntervalMap::new();
    map.insert_strict(range(0x10, 0x20), 1).unwrap();
    assert!(map.insert_strict(range(0x18, 0x18), 9).is_ok());
    assert!(map.insert_strict(range(0x19, 0x12), 9).is_ok());
    assert_eq!(map.len(), 1);
}

#[test]
fn point_lookup_finds_the_holder_or_fails() {
    let mut map: IntervalMap<u32> = IntervalMap::new();
    map.insert_strict(range(0x10, 0x20), 1).unwrap();
    map.insert_strict(range(0x30, 0x40), 3).unwrap();
    assert_eq!(map.get_at_point(Address(0x10)).unwrap(), &(range(0x10, 0x20), 1));
    assert_eq!(map.get_at_point(Address(0x1f)).unwrap(), &(range(0x10, 0x20), 1));
    assert_eq!(map.get_at_point(Address(0x20)), Err(NotFound { address: Address(0x20) }));
    assert_eq!(map.get_at_point(Address(0x3f)).unwrap().1, 3);
    assert_eq!(map.find(Address(0x35)), Some(1));
    assert_eq!(map.find(Address(0x0f)), None);
}

#[test]
fn point_lookup_gives_the_payload_to_change() {
    let mut map: IntervalMap<u32> = IntervalMap::new();
    map.insert_strict(range(0x10, 0x20), 1).unwrap();
    *map.get_at_point_mut(Address(0x15)).unwrap() = 7;
    assert_eq!(*map.entry(0), (range(0x10, 0x20), 7));
    assert_eq!(map.get_at_point_mut(Address(0x25)).unwrap_err(), NotFound { address: Address(0x25) });
}

#[test]
fn remove_overlapping_takes_exactly_what_intersects() {
    let mut map: IntervalMap<u32> = IntervalMap::new();
    for (i, start) in [0x10u64, 0x20, 0x30, 0x40].iter().enumerate() {
        map.insert_strict(range(*start, *start + 0x10), i as u32).unwrap();
    }
    let removed = map.remove_overlapping(range(0x2f, 0x31));
    assert_eq!(removed, vec![(range(0x20, 0x30), 1), (range(0x30, 0x40), 2)]);
    assert_eq!(map.len(), 2);
    assert_eq!(*map.entry(0), (range(0x10, 0x20), 0));
    assert_eq!(*map.entry(1), (range(0x40, 0x50), 3));
    assert!(map.remove_overlapping(range(0x20, 0x40)).is_empty());
    assert!(map.remove_overlapping(range(0x45, 0x45)).is_empty());
    assert_eq!(map.len(), 2);
}

#[test]
fn overwrite_replaces_what_it_meets() {
    let mut map: IntervalMap<u32> = IntervalMap::new();
    map.insert_strict(range(0x10, 0x20), 1).unwrap();
    map.insert_strict(range(0x20, 0x30), 2).unwrap();
    map.insert_strict(range(0x30, 0x40), 3).unwrap();
    let removed = map.overwrite(range(0x18, 0x28), 9);
    assert_eq!(removed, vec![(range(0x10, 0x20), 1), (range(0x20, 0x30), 2)]);
    assert_eq!(map.len(), 2);
    assert_eq!(*map.entry(0), (range(0x18, 0x28), 9));
    assert_eq!(*map.entry(1), (range(0x30, 0x40), 3));
}

#[test]
fn interval_arithmetic() {
    assert!(range(1, 5).overlaps(&range(4, 9)));
    assert!(!range(1, 5).overlaps(&range(5, 9)));
    assert!(!range(5, 5).overlaps(&range(0, 9)));
    assert!(range(1, 5).has_point(Address(1)));
    assert!(!range(1, 5).has_point(Address(5)));
    assert!(range(7, 7).holds_nothing());
    assert_eq!(Interval::from_len(Address(0x10), 4), range(0x10, 0x14));
    assert_eq!(Interval::from_len(Address(u64::MAX - 1), 4), range(u64::MAX - 1, u64::MAX));
    assert_eq!(Address::from(5u64), Address(5));
}

#[test]
fn marking_the_first_half_splits_in_two() {
    let mut memory = Memory::new();
    memory.insert_literal(LiteralState::from_bytes(Address(0x1000), vec![1, 2, 3, 4, 5, 6, 7, 8])).unwrap();
    let run = vec![plain(0x1000, 0x1002), plain(0x1002, 0x1004)];
    assert!(mark_instructions(Address(0x1000), &mut memory, Some(run)));
    assert_eq!(ranges_of(&memory), vec![(0x1000, 0x1004, false), (0x1004, 0x1008, true)]);
    let first = &memory.literal.entry(0).1;
    assert_eq!(
        first.kind,
        LiteralKind::Instruction(vec![plain(0x1000, 0x1002), plain(0x1002, 0x1004)], vec![1, 2, 3, 4])
    );
    assert_eq!(memory.literal.entry(1).1.kind, LiteralKind::Data(vec![5, 6, 7, 8]));
    assert_eq!(memory.literal.entry(1).1.addr, Address(0x1004));
    assert_eq!(memory.ir.len(), 2);
}

#[test]
fn marking_in_the_middle_splits_in_three() {
    let mut memory = Memory::new();
    memory.insert_literal(LiteralState::from_bytes(Address(0x1000), vec![0; 16])).unwrap();
    memory.insert_literal(LiteralState::from_bytes(Address(0x2000), vec![9; 4])).unwrap();
    assert!(mark_instructions(Address(0x1004), &mut memory, Some(vec![plain(0x1004, 0x1009)])));
    assert_eq!(
        ranges_of(&memory),
        vec![
            (0x1000, 0x1004, true),
            (0x1004, 0x1009, false),
            (0x1009, 0x1010, true),
            (0x2000, 0x2004, true)
        ]
    );
    let total: usize = (0..memory.literal.len()).map(|i| memory.literal.entry(i).1.kind.size()).sum();
    assert_eq!(total, 20);
}

#[test]
fn marking_the_whole_range_leaves_one_range() {
    let mut memory = Memory::new();
    memory.insert_literal(LiteralState::from_bytes(Address(0x1000), vec![0; 4])).unwrap();
    assert!(mark_instructions(Address(0x1000), &mut memory, Some(vec![plain(0x1000, 0x1004)])));
    assert_eq!(ranges_of(&memory), vec![(0x1000, 0x1004, false)]);
}

#[test]
fn marking_is_abandoned_where_it_cannot_be_done() {
    let mut memory = Memory::new();
    memory.insert_literal(LiteralState::from_bytes(Address(0x1000), vec![0; 8])).unwrap();
    let before = ranges_of(&memory);
    // nothing decoded
    assert!(!mark_instructions(Address(0x1000), &mut memory, None));
    assert!(!mark_instructions(Address(0x1000), &mut memory, Some(Vec::new())));
    // not covered
    assert!(!mark_instructions(Address(0x2000), &mut memory, Some(vec![plain(0x2000, 0x2002)])));
    // the run does not start at the address
    assert!(!mark_instructions(Address(0x1000), &mut memory, Some(vec![plain(0x1001, 0x1002)])));
    // the run has a gap
    assert!(!mark_instructions(
        Address(0x1000),
        &mut memory,
        Some(vec![plain(0x1000, 0x1002), plain(0x1003, 0x1004)])
    ));
    // the run reaches beyond the range
    assert!(!mark_instructions(Address(0x1004), &mut memory, Some(vec![plain(0x1004, 0x1009)])));
    assert_eq!(ranges_of(&memory), before);
    assert_eq!(memory.ir.len(), 0);
    // marked before
    assert!(mark_instructions(Address(0x1000), &mut memory, Some(vec![plain(0x1000, 0x1008)])));
    assert!(!mark_instructions(Address(0x1000), &mut memory, Some(vec![plain(0x1000, 0x1008)])));
    assert_eq!(ranges_of(&memory), vec![(0x1000, 0x1008, false)]);
}

#[test]
fn pending_bytes_run_to_the_end_of_the_range() {
    let mut memory = Memory::new();
    memory.insert_literal(LiteralState::from_bytes(Address(0x1000), vec![1, 2, 3, 4])).unwrap();
    assert_eq!(pending_bytes(Address(0x1001), &memory), Some(vec![2, 3, 4]));
    assert_eq!(pending_bytes(Address(0x1004), &memory), None);
    mark_instructions(Address(0x1000), &mut memory, Some(vec![plain(0x1000, 0x1002)]));
    assert_eq!(pending_bytes(Address(0x1000), &memory), None);
    assert_eq!(pending_bytes(Address(0x1002), &memory), Some(vec![3, 4]));
}

#[test]
fn runs_are_recognised() {
    assert!(is_run(&vec![plain(4, 6), plain(6, 7)], 4));
    assert!(!is_run(&Vec::new(), 4));
    assert!(!is_run(&vec![plain(4, 4)], 4));
    assert!(!is_run(&vec![plain(5, 6)], 4));
    assert!(!is_run(&vec![plain(4, 6), plain(7, 8)], 4));
}

#[test]
fn literal_state_knows_its_range() {
    let data = LiteralState::from_bytes(Address(0x10), vec![1, 2, 3]);
    assert_eq!(data.get_interval(), range(0x10, 0x13));
    assert_eq!(data.kind.size(), 3);
    assert!(data.get_instructions().is_none());
    let code = LiteralState::from_instructions(Address(0x20), vec![plain(0x20, 0x22)], vec![0x90, 0x90]);
    assert_eq!(code.get_interval(), range(0x20, 0x22));
    assert_eq!(code.get_instructions().unwrap().len(), 1);
    assert!(!code.is_data());
}
