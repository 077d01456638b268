//! Cost estimates.
use std::sync::Arc;

use zkm_core_executor::air::{MipsAirId, NUM_AIRS};
use zkm_core_executor::cost::{
    estimate_mips_event_counts, estimate_mips_lde_size, estimate_record_trace_bytes,
    family_air_ids, next_power_of_two, pad_mips_event_counts, AirCosts, AirCounts,
};
use zkm_core_executor::events::{
    KeccakSpongeEvent, MemoryWriteRecord, PrecompileEvent, PrecompileEvents, SyscallEvent,
};
use zkm_core_executor::opcode::{Opcode, NUM_OPCODES};
use zkm_core_executor::program::Program;
use zkm_core_executor::record::ExecutionRecord;
use zkm_core_executor::syscalls::SyscallCode;

fn test_costs() -> AirCosts {
    let mut costs = AirCosts::filled(1);
    costs.set(MipsAirId::KeccakSponge, 1000);
    costs.set(MipsAirId::SyscallPrecompile, 7);
    costs
}

fn dummy_syscall_event() -> SyscallEvent {
    SyscallEvent {
        pc: 0,
        next_pc: 0,
        shard: 0,
        clk: 0,
        a_record: MemoryWriteRecord::default(),
        a_record_is_real: false,
        b_record: None,
        c_record: None,
        syscall_id: 0,
        arg1: 0,
        arg2: 0,
    }
}

fn keccak_event() -> PrecompileEvent {
    PrecompileEvent::KeccakSponge(KeccakSpongeEvent {
        clk: 0,
        input_addr: 0,
        output_addr: 0,
        input_len_u32s: 0,
        local_mem_access: vec![],
    })
}

#[test]
fn precompile_free_shard_is_unaffected() {
    let costs = test_costs();
    let counts = AirCounts::new();
    let empty = PrecompileEvents::default();
    let baseline = estimate_mips_lde_size(&counts, &costs, 1, &empty);
    assert!(baseline > 0);
    assert_eq!(baseline, estimate_mips_lde_size(&counts, &costs, 1, &empty));
}

#[test]
fn precompile_heavy_shard_is_priced_in() {
    let costs = test_costs();
    let counts = AirCounts::new();
    let empty = PrecompileEvents::default();
    let baseline = estimate_mips_lde_size(&counts, &costs, 1, &empty);

    let mut heavy = PrecompileEvents::default();
    let num_events = 10_000_u64;
    for _ in 0..num_events {
        heavy.add_event(SyscallCode::KECCAK_SPONGE, dummy_syscall_event(), keccak_event());
    }
    let with_keccak = estimate_mips_lde_size(&counts, &costs, 1, &heavy);
    assert!(
        with_keccak > baseline,
        "a shard with {num_events} KeccakSponge events must be priced higher than an \
         otherwise-identical shard with none"
    );

    let padded = num_events.next_power_of_two();
    let expected_cells = padded * costs.get(MipsAirId::KeccakSponge).unwrap()
        + padded * costs.get(MipsAirId::SyscallPrecompile).unwrap();
    let bytes_per_cell = (core::mem::size_of::<p3_koala_bear::KoalaBear>() << 1) as u64;
    assert_eq!(with_keccak - baseline, expected_cells * bytes_per_cell);
}

#[test]
fn multiple_precompile_families_all_counted() {
    let costs = test_costs();
    let counts = AirCounts::new();

    let mut events = PrecompileEvents::default();
    for _ in 0..4 {
        events.add_event(SyscallCode::KECCAK_SPONGE, dummy_syscall_event(), keccak_event());
    }
    for _ in 0..4 {
        events.add_event(
            SyscallCode::POSEIDON2_PERMUTE,
            dummy_syscall_event(),
            PrecompileEvent::Other(vec![]),
        );
    }
    let combined = estimate_mips_lde_size(&counts, &costs, 1, &events);

    let mut keccak_only = PrecompileEvents::default();
    for _ in 0..4 {
        keccak_only.add_event(SyscallCode::KECCAK_SPONGE, dummy_syscall_event(), keccak_event());
    }
    let keccak_only_estimate = estimate_mips_lde_size(&counts, &costs, 1, &keccak_only);
    assert!(combined > keccak_only_estimate);
}

#[test]
fn padding_is_to_powers_of_two() {
    assert_eq!(next_power_of_two(0), 1);
    assert_eq!(next_power_of_two(1), 1);
    assert_eq!(next_power_of_two(2), 2);
    assert_eq!(next_power_of_two(3), 4);
    assert_eq!(next_power_of_two(1 << 40), 1 << 40);
    assert_eq!(next_power_of_two((1 << 40) + 1), 1 << 41);
}

#[test]
fn an_empty_shard_costs_its_tables() {
    // 65536 rows of the byte chip, the program, one padded row of each projected chip, and no
    // precompiled operation; eight bytes per cell.
    let mut costs = AirCosts::filled(0);
    costs.set(MipsAirId::Byte, 3);
    costs.set(MipsAirId::Program, 5);
    costs.set(MipsAirId::Add, 11);
    let counts = AirCounts::new();
    let size = estimate_mips_lde_size(&counts, &costs, 7, &PrecompileEvents::default());
    assert_eq!(size, 8 * (65536 * 3 + 7 * 5 + 11));
}

#[test]
fn special_forms_are_taken_out_of_their_chip() {
    let mut opcodes = vec![0u64; NUM_OPCODES];
    opcodes[Opcode::ADD.index() as usize] = 100;
    opcodes[Opcode::SLL.index() as usize] = 10;
    let counts = estimate_mips_event_counts(
        12, 3, 40, 5, 6, 0, 0, 0, 0, 0, 0, 0, 4, 1, 0, 0, 0, 0, 0, 0, 0, 0, &opcodes,
    );
    assert_eq!(counts.get(MipsAirId::Add), 100 - 40 - 5 - 6);
    assert_eq!(counts.get(MipsAirId::Addi), 40);
    assert_eq!(counts.get(MipsAirId::AddNoop), 5);
    assert_eq!(counts.get(MipsAirId::ShiftLeft), 10 - 4 - 1);
    assert_eq!(counts.get(MipsAirId::Lui), 4);
    assert_eq!(counts.get(MipsAirId::AluX0), 7);
    let padded = pad_mips_event_counts(counts, 16);
    assert_eq!(padded.get(MipsAirId::Add), 49 + 16);
    assert_eq!(padded.get(MipsAirId::Mul), 64);
}

#[test]
fn chips_have_positions() {
    for i in 0..NUM_AIRS {
        assert_eq!(MipsAirId::from_index(i).index(), i);
    }
    assert!(MipsAirId::Add.is_core_air());
    assert!(!MipsAirId::KeccakSponge.is_core_air());
}

#[test]
fn families_have_chips() {
    assert!(family_air_ids(SyscallCode::KECCAK_SPONGE).contains(&MipsAirId::KeccakSponge));
    assert!(family_air_ids(SyscallCode::HALT).is_empty());
}

#[test]
fn records_are_priced_by_their_rows() {
    let costs = AirCosts::filled(0);
    let record = ExecutionRecord::new(Arc::new(Program::default()));
    assert_eq!(estimate_record_trace_bytes(&record, &costs), 0);
    let costs = AirCosts::filled(2);
    assert!(estimate_record_trace_bytes(&record, &costs) > 0);
}

#[test]
fn unknown_costs_are_told() {
    let mut costs = AirCosts::new();
    assert_eq!(costs.get(MipsAirId::Add), None);
    assert_eq!(costs.cost_or_zero(MipsAirId::Add), 0);
    costs.set(MipsAirId::Add, 9);
    assert_eq!(costs.get(MipsAirId::Add), Some(9));
    assert_eq!(costs.get(MipsAirId::Sub), None);
}
