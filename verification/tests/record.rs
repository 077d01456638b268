//! Execution records and how they are cut.
use std::sync::Arc;

use zkm_core_executor::boundary::{eval_public_values, interactions_in_public_values};
use zkm_core_executor::dependencies::emit_memory_dependencies;
use zkm_core_executor::events::{
    AluEvent, CompAluEvent, MemInstrEvent, MemoryInitializeFinalizeEvent, MemoryReadRecord,
    MemoryRecord, MemoryRecordEnum, MemoryWriteRecord, PrecompileEvent, SyscallEvent,
};
use zkm_core_executor::opcode::Opcode;
use zkm_core_executor::program::Program;
use zkm_core_executor::record::{ByteLookupEvent, ExecutionRecord, PublicValues, SplitOpts};
use zkm_core_executor::syscalls::SyscallCode;

#[test]
fn test_split_memory_chain_across_multiple_shards() {
    let program = Arc::new(Program::default());
    let mut record = ExecutionRecord::new(program);
    for i in 0..10u32 {
        record.global_memory_initialize_events.push(MemoryInitializeFinalizeEvent {
            addr: (i + 1) * 4,
            value: i,
            timestamp: 0,
        });
        record.global_memory_finalize_events.push(MemoryInitializeFinalizeEvent {
            addr: (i + 1) * 4,
            value: i * 2,
            timestamp: 1,
        });
    }

    let opts = SplitOpts {
        deferred: 1 << 15,
        keccak: 1 << 15,
        sha_extend: 1 << 15,
        sha_compress: 1 << 15,
        memory: 3,
    };
    let shards = record.split(true, None, opts);
    assert!(
        shards.len() >= 4,
        "expected the memory chain to be split across multiple shards, got {}",
        shards.len()
    );

    let mut expected_previous_init = 0u32;
    let mut expected_previous_finalize = 0u32;
    for shard in &shards {
        assert_eq!(shard.public_values.previous_init_addr, expected_previous_init);
        assert_eq!(shard.public_values.previous_finalize_addr, expected_previous_finalize);

        if let Some(last) = shard.global_memory_initialize_events.last() {
            expected_previous_init = last.addr;
        }
        if let Some(last) = shard.global_memory_finalize_events.last() {
            expected_previous_finalize = last.addr;
        }

        assert_eq!(shard.public_values.last_init_addr, expected_previous_init);
        assert_eq!(shard.public_values.last_finalize_addr, expected_previous_finalize);
    }
}

#[test]
fn a_memory_shard_has_no_other_public_values() {
    let mut record = ExecutionRecord::new(Arc::new(Program::default()));
    record.public_values.start_pc = 4;
    for i in 1..4u32 {
        record.global_memory_initialize_events.push(MemoryInitializeFinalizeEvent {
            addr: 4 * i,
            value: i,
            timestamp: 0,
        });
    }
    let shards = record.split(true, None, opts(2));
    assert!(!shards.is_empty());
    for shard in &shards {
        let p = shard.public_values;
        let addresses = PublicValues {
            previous_init_addr: p.previous_init_addr,
            last_init_addr: p.last_init_addr,
            previous_finalize_addr: p.previous_finalize_addr,
            last_finalize_addr: p.last_finalize_addr,
            ..PublicValues::default()
        };
        assert_eq!(p, addresses);
    }
}

fn syscall_event(arg1: u32) -> SyscallEvent {
    SyscallEvent {
        pc: 0,
        next_pc: 0,
        shard: 0,
        clk: 0,
        a_record: MemoryWriteRecord::default(),
        a_record_is_real: false,
        b_record: None,
        c_record: None,
        syscall_id: 0,
        arg1,
        arg2: 0,
    }
}

fn opts(deferred: usize) -> SplitOpts {
    SplitOpts { deferred, keccak: 8, sha_extend: 8, sha_compress: 8, memory: 8 }
}

#[test]
fn full_shards_come_first_and_the_rest_waits() {
    let mut record = ExecutionRecord::new(Arc::new(Program::default()));
    for i in 0..5 {
        record.add_precompile_event(
            SyscallCode::SECP256K1_ADD,
            syscall_event(i),
            PrecompileEvent::Other(vec![]),
        );
    }
    let shards = record.split(false, None, opts(2));
    assert_eq!(shards.len(), 2);
    for shard in &shards {
        assert_eq!(shard.get_precompile_events(SyscallCode::SECP256K1_ADD).unwrap().len(), 2);
    }
    assert_eq!(record.get_precompile_events(SyscallCode::SECP256K1_ADD).unwrap().len(), 1);
    let shards = record.split(true, None, opts(2));
    assert_eq!(shards.len(), 1);
    assert_eq!(
        shards[0].get_precompile_events(SyscallCode::SECP256K1_ADD).unwrap()[0].0.arg1,
        4
    );
}

#[test]
fn memory_goes_into_the_last_record_when_there_is_nothing_else() {
    let mut record = ExecutionRecord::new(Arc::new(Program::default()));
    record.global_memory_initialize_events.push(MemoryInitializeFinalizeEvent {
        addr: 8,
        value: 1,
        timestamp: 0,
    });
    let mut last = ExecutionRecord::new(Arc::new(Program::default()));
    let shards = record.split(true, Some(&mut last), opts(2));
    assert!(shards.is_empty());
    assert_eq!(last.global_memory_initialize_events.len(), 1);
    assert_eq!(last.public_values.last_init_addr, 8);
}

#[test]
fn deferring_moves_the_deferred_events_out() {
    let mut record = ExecutionRecord::new(Arc::new(Program::default()));
    record.add_precompile_event(
        SyscallCode::SHA_EXTEND,
        syscall_event(1),
        PrecompileEvent::Other(vec![]),
    );
    record.global_memory_finalize_events.push(MemoryInitializeFinalizeEvent {
        addr: 8,
        value: 1,
        timestamp: 0,
    });
    let deferred = record.defer();
    assert!(record.get_precompile_events(SyscallCode::SHA_EXTEND).is_none());
    assert!(record.global_memory_finalize_events.is_empty());
    assert_eq!(deferred.get_precompile_events(SyscallCode::SHA_EXTEND).unwrap().len(), 1);
    assert_eq!(deferred.global_memory_finalize_events.len(), 1);
}

#[test]
fn appending_takes_the_events_over() {
    let mut a = ExecutionRecord::new(Arc::new(Program::default()));
    let mut b = ExecutionRecord::new(Arc::new(Program::default()));
    for r in [&mut a, &mut b] {
        r.add_precompile_event(
            SyscallCode::SHA_EXTEND,
            syscall_event(1),
            PrecompileEvent::Other(vec![]),
        );
    }
    a.public_values.start_pc = 4;
    a.public_values.global_count = 1;
    b.public_values.start_pc = 8;
    b.public_values.global_count = 2;
    a.append(&mut b);
    assert_eq!((a.public_values.start_pc, a.public_values.global_count), (4, 3));
    assert_eq!((b.public_values.start_pc, b.public_values.global_count), (8, 2));
    assert_eq!(a.get_precompile_events(SyscallCode::SHA_EXTEND).unwrap().len(), 2);
    assert!(!a.contains_cpu());
    assert_eq!(a.stats().count("cpu_events"), 0);
    assert_eq!(a.get_local_mem_events().len(), 0);
}

#[test]
fn boundary_lookups_of_a_shard() {
    let mut p = PublicValues::default();
    p.is_execution_shard = 1;
    p.start_pc = 4;
    p.next_pc = 8;
    let lookups = eval_public_values(&p, &[0; 7], &[0; 7]);
    assert!(!lookups.is_empty());
    assert!(!interactions_in_public_values().is_empty());
}

#[test]
fn lookups_are_counted() {
    let mut record = ExecutionRecord::new(Arc::new(Program::default()));
    let lookup = ByteLookupEvent { opcode: 1, a1: 2, a2: 3, b: 4, c: 5 };
    record.add_byte_lookup_event(lookup);
    record.add_byte_lookup_event(lookup);
    record.add_byte_lookup_event(ByteLookupEvent { c: 6, ..lookup });
    assert_eq!(record.stats().count("byte_lookups"), 2);
    let mut other = ExecutionRecord::new(Arc::new(Program::default()));
    other.add_byte_lookup_event(ByteLookupEvent { c: 7, ..lookup });
    record.add_byte_lookup_events_from_map(&other.byte_lookups);
    assert_eq!(record.stats().count("byte_lookups"), 3);

    record.add_lt_event(AluEvent::new(0, Opcode::SLT, 1, 2, 3));
    record.add_mul_event(CompAluEvent::new(0, Opcode::MUL, 6, 2, 3));
    assert_eq!((record.lt_events.len(), record.mul_events.len()), (1, 1));
}

#[test]
fn negative_loads_force_a_subtraction() {
    let mut record = ExecutionRecord::new(Arc::new(Program::default()));
    let word = MemoryRecord { value: 0x0000_80ff, timestamp: 1 };
    let read = MemoryReadRecord { value: word.value, timestamp: 2, prev_timestamp: 1 };
    let event = |opcode, a, c| {
        MemInstrEvent::new(5, 0, 4, opcode, a, 0x100, c, MemoryRecordEnum::Read(read), 0)
    };
    emit_memory_dependencies(&mut record, event(Opcode::LBU, 0xff, 0), word);
    emit_memory_dependencies(&mut record, event(Opcode::LB, 0, 2), word);
    assert!(record.sub_events.is_empty());
    emit_memory_dependencies(&mut record, event(Opcode::LB, 0xffff_ffff, 0), word);
    emit_memory_dependencies(&mut record, event(Opcode::LH, 0xffff_80ff, 0), word);
    assert_eq!(record.sub_events.len(), 2);
    for sub in &record.sub_events {
        assert_eq!(sub.a, sub.b.wrapping_sub(sub.c));
    }
}
