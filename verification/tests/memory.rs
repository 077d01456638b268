//! Guest memory.
use zkm_core_executor::memory::config::{
    AddressSpaceHostLayout, MemoryConfig, MIPS_MEMORY_SPACE, MIPS_REGISTER_SPACE,
};
use zkm_core_executor::memory::guest::{is_cell, GuestMemory};
use zkm_core_executor::memory::{is_addressable, Entry, MaybeCowMemory, Memory, PagedMemory};
use zkm_core_executor::state::ExecutionState;

#[test]
fn maybe_cow_memory_discards_writes_and_new_addresses_on_discard() {
    let mut mem: MaybeCowMemory<u32> = MaybeCowMemory::default();
    *mem.entry(4).or_insert(0) = 100;
    *mem.entry(8).or_insert(0) = 200;
    assert_eq!(mem.get(4), Some(&100));
    assert_eq!(mem.get(8), Some(&200));

    mem.copy_on_write();
    assert_eq!(mem.get(4), Some(&100), "reads must see through to the original while unwritten");
    assert_eq!(mem.get(8), Some(&200));

    *mem.entry(4).or_insert(0) = 999;
    assert_eq!(mem.get(4), Some(&999), "reads must see the overlay once written");
    *mem.entry(12).or_insert(0) = 777;
    assert_eq!(mem.get(12), Some(&777));
    assert_eq!(mem.get(8), Some(&200));

    mem.discard_cow();
    assert_eq!(mem.get(4), Some(&100), "discard must revert the overwritten address");
    assert_eq!(mem.get(8), Some(&200), "discard must leave the untouched address alone");
    assert_eq!(mem.get(12), None, "discard must make the never-before-existing address vanish again");
}

#[test]
fn maybe_cow_memory_entry_and_modify_matches_owned_semantics() {
    let mut mem: MaybeCowMemory<u32> = MaybeCowMemory::default();
    mem.copy_on_write();
    let v = mem.entry(16).or_insert(0);
    *v += 1;
    assert_eq!(mem.get(16), Some(&1));
    let v = mem.entry(16).or_insert(0);
    *v += 1;
    assert_eq!(mem.get(16), Some(&2));
}

#[test]
fn maybe_cow_memory_nested_copy_on_write_is_a_no_op() {
    let mut mem: MaybeCowMemory<u32> = MaybeCowMemory::default();
    *mem.entry(4).or_insert(0) = 1;
    mem.copy_on_write();
    *mem.entry(8).or_insert(0) = 2;
    mem.copy_on_write();
    assert_eq!(mem.get(4), Some(&1));
    assert_eq!(mem.get(8), Some(&2));
    mem.discard_cow();
    assert_eq!(mem.get(4), Some(&1));
    assert_eq!(mem.get(8), None);
}

#[test]
fn paged_memory_keeps_words() {
    let mut mem: PagedMemory<u32> = PagedMemory::new_preallocated();
    assert!(mem.get(64).is_none());
    assert_eq!(mem.insert(64, 7), None);
    assert_eq!(mem.insert(65, 8), Some(7), "the low bits of an address do not matter");
    assert_eq!(mem.get(66), Some(&8));
    assert_eq!(mem.insert(0x7000_0000, 9), None);
    assert_eq!(mem.exact_len(), 2);
    let mut keys = mem.keys();
    keys.sort();
    assert_eq!(keys, vec![64, 0x7000_0000]);
    assert_eq!(mem.remove(64), Some(8));
    assert_eq!(mem.remove(64), None);
    mem.clear();
    assert_eq!(mem.exact_len(), 0);
}

#[test]
fn paged_memory_from_and_into_pairs() {
    let mem = PagedMemory::from_iter(vec![(4u32, 1u32), (8, 2), (4, 3)]);
    let mut items = mem.into_iter();
    items.sort();
    assert_eq!(items, vec![(4, 3), (8, 2)]);
}

#[test]
fn memory_tells_registers_and_words_apart() {
    let mut mem: Memory<u32> = Memory::default();
    assert_eq!(mem.insert(5, 1), None);
    assert_eq!(mem.insert(6, 2), None);
    assert_eq!(mem.insert(100, 3), None);
    assert_eq!(mem.get(5), Some(&1));
    assert_eq!(mem.get(6), Some(&2));
    assert_eq!(mem.get(101), Some(&3));
    assert_eq!(mem.remove(5), Some(1));
    assert_eq!(mem.get(5), None);
    *mem.entry(200).or_insert(4) += 1;
    assert_eq!(mem.get(200), Some(&5));
}

#[test]
fn the_paged_space_ends() {
    assert!(is_addressable(0x7F00_0000));
    assert!(!is_addressable(0x7F01_0000));
    assert!(!is_addressable(u32::MAX));
}

#[test]
fn the_default_configuration_has_words() {
    let config = MemoryConfig::default();
    assert_eq!(config.addr_spaces.len(), 2);
    assert_eq!(config.addr_spaces[MIPS_REGISTER_SPACE as usize].num_cells, 36);
    assert_eq!(config.addr_spaces[MIPS_MEMORY_SPACE as usize].num_cells, 0x7F00_0000 / 4);
    assert_eq!(config.addr_spaces[0].layout.size(), 4);
}

#[test]
fn guest_memory_starts_blank_and_keeps_cells() {
    let mut mem = GuestMemory::default();
    assert_eq!(mem.read(MIPS_REGISTER_SPACE, 7), 0);
    assert_eq!(mem.read(MIPS_MEMORY_SPACE, 7), 0);
    mem.write(MIPS_REGISTER_SPACE, 7, 1);
    mem.write(MIPS_MEMORY_SPACE, 7, 2);
    assert_eq!(mem.read(MIPS_REGISTER_SPACE, 7), 1);
    assert_eq!(mem.read(MIPS_MEMORY_SPACE, 7), 2);
    assert_eq!(mem.read(MIPS_MEMORY_SPACE, 8), 0);
    assert!(is_cell(MIPS_REGISTER_SPACE, 35));
    assert!(!is_cell(MIPS_REGISTER_SPACE, 36));
    assert!(!is_cell(MIPS_MEMORY_SPACE, 0x7F00_0000 / 4));
    assert!(!is_cell(2, 0));
}

#[test]
fn the_state_keeps_registers_memory_and_accesses_apart() {
    let mut state = ExecutionState::new(4, 8);
    assert_eq!((state.pc, state.next_pc, state.current_shard, state.clk), (4, 8, 1, 0));
    state.write_register(3, 30);
    state.write_memory(12, 31);
    assert_eq!(state.read_register(3), 30);
    assert_eq!(state.read_memory(12), 31);
    assert_eq!(state.read_memory(15), 31);
    assert_eq!(state.read_memory(16), 0);
    assert_eq!(state.vm_read(MIPS_MEMORY_SPACE, 3), [31]);
    state.vm_write(MIPS_REGISTER_SPACE, 4, &[40]);
    assert_eq!(state.read_register(4), 40);

    assert_eq!(state.read_register_access_meta(3), (0, 0));
    state.write_register_access_meta(3, 1, 13);
    state.write_memory_access_meta(12, 2, 20);
    assert_eq!(state.read_register_access_meta(3), (1, 13));
    assert_eq!(state.read_memory_access_meta(12), (2, 20));
    assert_eq!(state.read_memory_access_meta(8), (0, 0));

    assert!(state.register_not_accessed(3));
    assert!(state.memory_not_accessed(12));
    state.access_register(3);
    state.access_memory(12);
    assert!(!state.register_not_accessed(3));
    assert!(!state.memory_not_accessed(12));
    assert!(state.register_not_accessed(4));
    assert_eq!(state.read_register(3), 30);
}

#[test]
fn entries_are_inserted_and_modified() {
    let mut mem: PagedMemory<u32> = PagedMemory::new_preallocated();
    assert_eq!(*mem.entry(8).or_insert_with(|| 5), 5);
    assert_eq!(*mem.entry(8).or_insert_with(|| 6), 5);
    *mem.entry(8).and_modify(|v| *v += 1).or_insert(0) += 10;
    assert_eq!(mem.get(8), Some(&16));
    mem.entry(12).and_modify(|v| *v += 1).or_insert(3);
    assert_eq!(mem.get(12), Some(&3));
    assert_eq!(mem.estimate_len() % mem.exact_len(), 0);
    assert!(mem.estimate_len() >= mem.exact_len());
}

#[test]
fn an_occupied_entry_is_read_replaced_and_removed() {
    let mut mem: PagedMemory<u32> = PagedMemory::new_preallocated();
    mem.insert(4, 7);
    mem.insert(8, 9);
    match mem.entry(4) {
        Entry::Occupied(mut entry) => {
            assert_eq!(*entry.get(), 7);
            assert_eq!(entry.insert(6), 7);
            assert_eq!(entry.remove(), 6);
        }
        Entry::Vacant(_) => panic!("the word was inserted"),
    }
    assert_eq!(mem.get(4), None);
    assert_eq!(mem.get(8), Some(&9));
    assert!(matches!(mem.entry(4), Entry::Vacant(_)));
}
