//! Whole runs on the live engine, and on the chunked engine held against it.
use std::collections::{BTreeMap, VecDeque};
use std::sync::Arc;

use zkm_core_executor::chips::is_precompiled;
use zkm_core_executor::cost::AirCosts;
use zkm_core_executor::errors::ExecutionError;
use zkm_core_executor::events::{MemoryInitializeFinalizeEvent, PrecompileEvent};
use zkm_core_executor::globals::{add_touched_events, run_timestamp, Touched};
use zkm_core_executor::instruction::Instruction;
use zkm_core_executor::minimal::executor;
use zkm_core_executor::minimal::runner::MinimalRunner;
use zkm_core_executor::minimal::MinimalExecutor;
use zkm_core_executor::opcode::Opcode;
use zkm_core_executor::pipeline::{execute_fast, run_full_pipeline, ShardDriver};
use zkm_core_executor::program::Program;
use zkm_core_executor::record::{ExecutionRecord, PublicValues};
use zkm_core_executor::syscalls::SyscallCode;

fn simple_program() -> Program {
    let instructions = vec![
        Instruction::new(Opcode::ADD, 29, 0, 5, false, true),
        Instruction::new(Opcode::ADD, 30, 0, 37, false, true),
        Instruction::new(Opcode::ADD, 31, 30, 29, false, false),
    ];
    Program::new(instructions, 0, 0)
}

fn halt_only_program() -> Program {
    let instructions = vec![
        Instruction::new(Opcode::ADD, 2, 0, 0, false, true),
        Instruction::new(Opcode::ADD, 4, 0, 0, false, true),
        Instruction::new(Opcode::SYSCALL, 2, 4, 5, false, false),
    ];
    Program::new(instructions, 0, 0)
}

/// Computes the first 200 Fibonacci numbers modulo 2^32 into memory and commits the last one.
fn fibonacci_program() -> Program {
    const OUT: u32 = 0x10000;
    let instructions = vec![
        Instruction::new(Opcode::ADD, 8, 0, 0, false, true),
        Instruction::new(Opcode::ADD, 9, 0, 1, false, true),
        Instruction::new(Opcode::ADD, 10, 0, 200, false, true),
        Instruction::new(Opcode::ADD, 11, 0, OUT, false, true),
        // loop:
        Instruction::new(Opcode::ADD, 12, 8, 9, false, false),
        Instruction::new(Opcode::ADD, 8, 9, 0, false, true),
        Instruction::new(Opcode::ADD, 9, 12, 0, false, true),
        Instruction::new(Opcode::SW, 8, 11, 0, false, true),
        Instruction::new(Opcode::ADD, 11, 11, 4, false, true),
        Instruction::new(Opcode::ADD, 10, 10, 0xffff_ffff, false, true),
        Instruction::new(Opcode::BNE, 10, 0, 0xffff_ffe4, false, true),
        Instruction::new(Opcode::ADD, 13, 10, 0, false, true),
        // WRITE(public values, the last number, 4)
        Instruction::new(Opcode::ADD, 2, 0, SyscallCode::WRITE.id(), false, true),
        Instruction::new(Opcode::ADD, 4, 0, 3, false, true),
        Instruction::new(Opcode::ADD, 5, 11, 0xffff_fffc, false, true),
        Instruction::new(Opcode::ADD, 6, 0, 4, false, true),
        Instruction::new(Opcode::SYSCALL, 2, 4, 5, false, false),
        // HALT
        Instruction::new(Opcode::ADD, 2, 0, 0, false, true),
        Instruction::new(Opcode::ADD, 4, 0, 0, false, true),
        Instruction::new(Opcode::SYSCALL, 2, 4, 5, false, false),
    ];
    Program::new(instructions, 0, 0)
}

/// Stores words one after the other.
fn store(code: &mut Vec<Instruction>, addr: u32, words: &[u32]) {
    for (k, word) in words.iter().enumerate() {
        code.push(Instruction::new(Opcode::ADD, 8, 0, *word, false, true));
        code.push(Instruction::new(Opcode::SW, 8, 0, addr + 4 * k as u32, false, true));
    }
}

/// Makes a system call.
fn call(code: &mut Vec<Instruction>, syscall: SyscallCode, args: [u32; 4]) {
    code.push(Instruction::new(Opcode::ADD, 2, 0, syscall.id(), false, true));
    for (k, arg) in args.iter().enumerate() {
        code.push(Instruction::new(Opcode::ADD, 4 + k as u8, 0, *arg, false, true));
    }
    code.push(Instruction::new(Opcode::SYSCALL, 2, 4, 5, false, false));
}

/// Commits words and halts.
fn commit_and_halt(mut code: Vec<Instruction>, addr: u32, len: u32) -> Program {
    call(&mut code, SyscallCode::WRITE, [3, addr, 4 * len, 0]);
    call(&mut code, SyscallCode::HALT, [0; 4]);
    Program::new(code, 0x1000, 0x1000)
}

/// Prints a line on the standard output.
fn hello_world_program() -> Program {
    let mut code = vec![];
    store(&mut code, 0x20000, &[0x6c6c6548, 0x57202c6f, 0x646c726f, 0x00000a21]);
    call(&mut code, SyscallCode::WRITE, [1, 0x20000, 14, 0]);
    commit_and_halt(code, 0x20000, 1)
}

/// The base point of secp256r1.
const R1_G: [u32; 16] = [
    0xd898c296, 0xf4a13945, 0x2deb33a0, 0x77037d81,
    0x63a440f2, 0xf8bce6e5, 0xe12c4247, 0x6b17d1f2,
    0x37bf51f5, 0xcbb64068, 0x6b315ece, 0x2bce3357,
    0x7c0f9e16, 0x8ee7eb4a, 0xfe1a7f9b, 0x4fe342e2,
];
/// Twice the base point.
const R1_2G: [u32; 16] = [
    0x47669978, 0xa60b48fc, 0x77f21b35, 0xc08969e2,
    0x04b51ac3, 0x8a523803, 0x8d034f7e, 0x7cf27b18,
    0x227873d1, 0x9e04b79d, 0x3ce98229, 0xba7dade6,
    0x9f7430db, 0x293d9ac6, 0xdb8ed040, 0x07775510,
];
/// Three times the base point.
const R1_3G: [u32; 16] = [
    0xc6e7fd6c, 0xfb41661b, 0xefada985, 0xe6c6b721,
    0x1d4bf165, 0xc8f7ef95, 0xa6330a44, 0x5ecbe4d1,
    0xa27d5032, 0x9a79b127, 0x384fb83d, 0xd82ab036,
    0x1a64a2ec, 0x374b06ce, 0x4998ff7e, 0x8734640c,
];

/// Adds the base point of secp256r1 to its double.
fn secp256r1_add_program() -> Program {
    let mut code = vec![];
    store(&mut code, 0x20000, &R1_G);
    store(&mut code, 0x21000, &R1_2G);
    call(&mut code, SyscallCode::SECP256R1_ADD, [0x20000, 0x21000, 0, 0]);
    commit_and_halt(code, 0x20000, 16)
}

/// Doubles the base point of secp256r1.
fn secp256r1_double_program() -> Program {
    let mut code = vec![];
    store(&mut code, 0x20000, &R1_G);
    call(&mut code, SyscallCode::SECP256R1_DOUBLE, [0x20000, 0, 0, 0]);
    commit_and_halt(code, 0x20000, 16)
}

/// Multiplies 3 + 2^2016 by 2^224 + 5.
fn u256xu2048_mul_program() -> Program {
    let mut code = vec![];
    store(&mut code, 0x20000, &[5, 0, 0, 0, 0, 0, 0, 1]);
    let mut long = [0u32; 64];
    long[0] = 3;
    long[63] = 1;
    store(&mut code, 0x21000, &long);
    call(&mut code, SyscallCode::U256XU2048_MUL, [0x20000, 0x21000, 0x22000, 0x23000]);
    commit_and_halt(code, 0x23000, 8)
}

/// Absorbs a block, then the digest followed by the rest of the block.
fn sha3_chain_program() -> Program {
    let mut code = vec![];
    let mut block = [0u32; 34];
    block[0] = 1;
    block[33] = 0x8000_0000;
    store(&mut code, 0x20000, &block);
    store(&mut code, 0x21040, &[34]);
    call(&mut code, SyscallCode::KECCAK_SPONGE, [0x20000, 0x21000, 0, 0]);
    for k in 0..16 {
        code.push(Instruction::new(Opcode::LW, 8, 0, 0x21000 + 4 * k, false, true));
        code.push(Instruction::new(Opcode::SW, 8, 0, 0x20000 + 4 * k, false, true));
    }
    store(&mut code, 0x22040, &[34]);
    call(&mut code, SyscallCode::KECCAK_SPONGE, [0x20000, 0x22000, 0, 0]);
    commit_and_halt(code, 0x22000, 8)
}

/// Hashes the empty message.
fn ssz_withdrawals_program() -> Program {
    let mut code = vec![];
    let mut block = [0u32; 34];
    block[0] = 1;
    block[33] = 0x8000_0000;
    store(&mut code, 0x20000, &block);
    store(&mut code, 0x21040, &[34]);
    call(&mut code, SyscallCode::KECCAK_SPONGE, [0x20000, 0x21000, 0, 0]);
    commit_and_halt(code, 0x21000, 8)
}

fn fibonacci(n: u32) -> u32 {
    let (mut a, mut b) = (0u32, 1u32);
    for _ in 0..n {
        let c = a.wrapping_add(b);
        a = b;
        b = c;
    }
    a
}

/// The kind of event that an instruction leaves in a record.
fn kind(i: &Instruction) -> &'static str {
    let to_zero = i.op_a == 0;
    match i.opcode {
        Opcode::ADD if i.imm_b && i.imm_c && to_zero && i.op_b == 0 && i.op_c == 0 => {
            "add_noop_events"
        }
        Opcode::ADD if i.imm_c && !i.imm_b => "addi_events",
        Opcode::ADD if !to_zero => "add_events",
        Opcode::SLL if i.imm_b => "lui_events",
        Opcode::ADD | Opcode::SLL if to_zero => "alu_x0_events",
        Opcode::SLL => "shift_left_events",
        Opcode::LW if to_zero => "load_x0_events",
        Opcode::LW => "load_word_events",
        Opcode::SW => "store_word_events",
        Opcode::BNE => "branch_events",
        Opcode::SYSCALL => "",
        _ => panic!("an opcode without a known kind"),
    }
}

/// The names under which events are counted.
const KINDS: [&str; 13] = [
    "cpu_events",
    "add_noop_events",
    "addi_events",
    "add_events",
    "lui_events",
    "alu_x0_events",
    "shift_left_events",
    "load_x0_events",
    "load_word_events",
    "store_word_events",
    "branch_events",
    "jump_events",
    "mul_events",
];

/// The precompiled operations that the programs use.
const CALLS: [SyscallCode; 7] = [
    SyscallCode::SECP256R1_ADD,
    SyscallCode::SECP256R1_DOUBLE,
    SyscallCode::U256XU2048_MUL,
    SyscallCode::KECCAK_SPONGE,
    SyscallCode::SHA_EXTEND,
    SyscallCode::SHA_COMPRESS,
    SyscallCode::ED_DECOMPRESS,
];

/// The number of events of each kind over all records of a run.
fn recorded_counts(records: &[ExecutionRecord]) -> BTreeMap<String, usize> {
    let names = KINDS.iter().map(|kind| kind.to_string());
    let calls = CALLS.iter().map(|code| format!("syscall {}", code.name()));
    let mut counts = BTreeMap::new();
    for name in names.chain(calls) {
        let count: usize = records.iter().map(|record| record.stats().count(&name)).sum();
        if count > 0 {
            counts.insert(name, count);
        }
    }
    counts
}

/// Steps a program to its end and counts the events that its instructions call for.
fn step(program: &Program) -> (executor::MinimalExecutor, BTreeMap<String, usize>) {
    let mut counts: BTreeMap<String, usize> = BTreeMap::new();
    let mut live = executor::MinimalExecutor::new(Arc::new(program.clone()));
    live.load_image();
    loop {
        let i = &program.instructions[((live.pc() - program.pc_base) / 4) as usize];
        let code = SyscallCode::from_u32(live.registers()[2]);
        let name = match i.opcode {
            Opcode::SYSCALL if is_precompiled(code) => format!("syscall {}", code.name()),
            _ => kind(i).to_string(),
        };
        let done = live.execute_instruction().expect("the reference run failed");
        for name in ["cpu_events".to_string(), name] {
            *counts.entry(name).or_insert(0) += 1;
        }
        if done {
            counts.remove("");
            return (live, counts);
        }
    }
}

#[derive(Debug, Clone, PartialEq, Eq)]
struct GoldenSnapshot {
    event_counts: BTreeMap<String, usize>,
    num_instructions: u64,
    final_registers: [u32; 36],
    final_pc: u32,
    final_clk: u64,
    public_values_stream: Vec<u8>,
    memory: BTreeMap<u32, (u32, u64)>,
}

fn run_golden(program: Program) -> GoldenSnapshot {
    let (live, event_counts) = step(&program);
    let records = run_full_pipeline(
        Arc::new(program),
        u64::MAX / 2,
        VecDeque::new(),
        AirCosts::filled(1),
        u64::MAX / 2,
        u64::MAX / 2,
    )
    .expect("the pipeline failed");
    assert_eq!(recorded_counts(&records), event_counts, "event counts mismatch");
    GoldenSnapshot {
        event_counts,
        num_instructions: live.global_clk(),
        final_registers: live.registers(),
        final_pc: live.pc(),
        final_clk: live.clk(),
        public_values_stream: live.public_values_stream().clone(),
        memory: live
            .memory_records()
            .iter()
            .filter(|(_, record)| record.timestamp != 0)
            .map(|(addr, record)| (*addr, (record.value, record.timestamp)))
            .collect(),
    }
}

fn assert_deterministic(program: impl Fn() -> Program) {
    let a = run_golden(program());
    let b = run_golden(program());
    assert_eq!(a, b, "two different snapshots for the same program");
}

#[test]
fn golden_simple_program_is_deterministic_and_sane() {
    let snap = run_golden(simple_program());
    assert!(snap.num_instructions >= 1);
    assert_eq!(snap.final_registers[31], 42);
    assert_deterministic(simple_program);
}

#[test]
fn golden_halt_only_program_is_deterministic_and_sane() {
    let snap = run_golden(halt_only_program());
    assert!(snap.num_instructions >= 1);
    assert_deterministic(halt_only_program);
}

#[test]
fn golden_fibonacci_real_elf_is_deterministic_and_sane() {
    let snap = run_golden(fibonacci_program());
    assert!(snap.num_instructions >= 1);
    assert_eq!(snap.public_values_stream, fibonacci(200).to_le_bytes().to_vec());
    assert_deterministic(fibonacci_program);
}

fn bytes(words: &[u32]) -> Vec<u8> {
    words.iter().flat_map(|w| w.to_le_bytes()).collect()
}

#[test]
fn golden_hello_world_real_elf_is_deterministic_and_sane() {
    let snap = run_golden(hello_world_program());
    assert!(snap.num_instructions >= 1);
    assert_eq!(snap.public_values_stream, b"Hell".to_vec());
    assert_deterministic(hello_world_program);
}

#[test]
fn golden_sha3_chain_real_elf_is_deterministic_and_sane() {
    let snap = run_golden(sha3_chain_program());
    assert!(snap.num_instructions >= 1);
    assert_eq!(snap.public_values_stream.len(), 32);
    assert_ne!(
        snap.public_values_stream,
        run_golden(ssz_withdrawals_program()).public_values_stream
    );
    assert_deterministic(sha3_chain_program);
}

#[test]
fn golden_secp256r1_add_real_elf_is_deterministic_and_sane() {
    let snap = run_golden(secp256r1_add_program());
    assert!(snap.num_instructions >= 1);
    assert!(
        snap.event_counts.contains_key("syscall SECP256R1_ADD"),
        "expected the SECP256R1_ADD precompile to actually fire; got counts: {:?}",
        snap.event_counts
    );
    assert_eq!(
        snap.public_values_stream,
        bytes(&R1_3G)
    );
    assert_deterministic(secp256r1_add_program);
}

#[test]
fn golden_secp256r1_double_real_elf_is_deterministic_and_sane() {
    let snap = run_golden(secp256r1_double_program());
    assert!(snap.num_instructions >= 1);
    assert_eq!(snap.public_values_stream, bytes(&R1_2G));
    assert_deterministic(secp256r1_double_program);
}

#[test]
fn golden_u256xu2048_mul_real_elf_is_deterministic_and_sane() {
    let snap = run_golden(u256xu2048_mul_program());
    assert!(snap.num_instructions >= 1);
    assert_eq!(snap.public_values_stream, bytes(&[0, 0, 0, 0, 0, 0, 1, 0]));
    assert_eq!(snap.memory[&0x22000].0, 15);
    assert_eq!(snap.memory[&(0x22000 + 28)].0, 3);
    assert_eq!(snap.memory[&(0x22000 + 252)].0, 5);
    assert_deterministic(u256xu2048_mul_program);
}

#[test]
fn golden_ssz_withdrawals_keccak_real_elf_is_deterministic_and_sane() {
    let snap = run_golden(ssz_withdrawals_program());
    assert!(snap.num_instructions >= 1);
    assert_eq!(
        snap.public_values_stream[..8],
        [0xc5, 0xd2, 0x46, 0x01, 0x86, 0xf7, 0x23, 0x3c]
    );
    assert_deterministic(ssz_withdrawals_program);
}

fn assert_matches_golden(program: impl Fn() -> Program, name: &str) {
    let golden = run_golden(program());
    let mut exec = MinimalExecutor::new(Arc::new(program()), 4);
    let mut num_chunks = 0;
    while exec.try_execute_chunk().unwrap().is_some() {
        num_chunks += 1;
    }
    assert_eq!(exec.registers(), golden.final_registers, "{name}: final registers mismatch");
    assert_eq!(exec.pc(), golden.final_pc, "{name}: final pc mismatch");
    assert_eq!(exec.clk(), golden.final_clk, "{name}: final clk mismatch");
    assert_eq!(
        *exec.public_values_stream(),
        golden.public_values_stream,
        "{name}: public values stream mismatch"
    );
    let memory: BTreeMap<u32, (u32, u64)> = exec
        .touched_memory()
        .unwrap()
        .iter()
        .map(|(addr, record)| (*addr, (record.value, record.timestamp)))
        .collect();
    assert_eq!(memory, golden.memory, "{name}: memory mismatch");
    assert!(num_chunks >= 1, "{name}: expected at least one chunk");
}

#[test]
fn mod_matches_golden_simple_program() {
    assert_matches_golden(simple_program, "simple_program");
}

#[test]
fn mod_matches_golden_halt_only_program() {
    assert_matches_golden(halt_only_program, "halt_only_program");
}

#[test]
fn mod_matches_golden_fibonacci_real_elf() {
    assert_matches_golden(fibonacci_program, "fibonacci_program");
}

#[test]
fn mod_matches_golden_hello_world_real_elf() {
    assert_matches_golden(hello_world_program, "hello_world_program");
}

#[test]
fn chunk_boundaries_are_never_mid_delay_slot() {
    let mut exec = MinimalExecutor::new(Arc::new(fibonacci_program()), 4);
    let mut num_chunks = 0;
    while let Some(_chunk) = exec.try_execute_chunk().unwrap() {
        num_chunks += 1;
        assert!(
            !exec.next_is_delayslot(),
            "chunk boundary landed in a delay slot (pc={:#x}, clk={})",
            exec.pc(),
            exec.clk()
        );
    }
    assert!(num_chunks > 10);
}

/// The same program, placed where the program counter is never zero.
fn relocated_fibonacci_program() -> Program {
    let program = fibonacci_program();
    Program::new(program.instructions, 0x1000, 0x1000)
}

#[test]
fn chunks_of_the_live_engine_do_not_disturb_it() {
    let golden = run_golden(relocated_fibonacci_program());
    let mut runner = MinimalRunner::new(Arc::new(relocated_fibonacci_program()), 16);
    let mut num_chunks = 0;
    while runner.try_next_chunk().unwrap().is_some() {
        num_chunks += 1;
    }
    assert!(num_chunks > 1);
    assert_eq!(runner.registers(), golden.final_registers);
    assert_eq!(runner.pc(), golden.final_pc);
    assert_eq!(runner.clk(), golden.final_clk);
    assert_eq!(runner.global_clk(), golden.num_instructions);
    assert_eq!(*runner.public_values_stream(), golden.public_values_stream);
    let memory: BTreeMap<u32, (u32, u64)> = runner
        .touched_memory()
        .iter()
        .map(|(addr, record)| (*addr, (record.value, record.timestamp)))
        .collect();
    assert_eq!(memory, golden.memory);
    let mut record = ExecutionRecord::new(Arc::new(relocated_fibonacci_program()));
    runner.emit_globals(&mut record);
    for e in &record.global_memory_finalize_events {
        if e.addr >= 36 {
            assert_eq!(memory[&e.addr], (e.value, e.timestamp));
        }
    }
    assert!(record.global_memory_finalize_events.len() >= 200);
}

#[test]
fn a_fresh_run_at_address_zero_has_a_chunk() {
    let mut runner = MinimalRunner::new(Arc::new(simple_program()), 16);
    let chunk = runner.try_next_chunk().unwrap().unwrap();
    assert_eq!((chunk.pc_start, chunk.global_clk_start), (0, 0));
    assert!(chunk.done);
    assert_eq!(runner.registers()[31], 42);
    assert!(runner.try_next_chunk().unwrap().is_none());
}

/// The record of a run that fits in one shard.
fn single_record(program: Program) -> ExecutionRecord {
    let mut records = run_full_pipeline(
        Arc::new(program),
        u64::MAX / 2,
        VecDeque::new(),
        AirCosts::filled(1),
        u64::MAX / 2,
        u64::MAX / 2,
    )
    .unwrap();
    assert_eq!(records.len(), 1);
    records.remove(0)
}

#[test]
fn operations_on_points_are_recorded_with_their_operands() {
    let record = single_record(secp256r1_add_program());
    let events = record.get_precompile_events(SyscallCode::SECP256R1_ADD).unwrap();
    assert_eq!(events.len(), 1);
    match &events[0] {
        (call, PrecompileEvent::EcAdd(e)) => {
            assert_eq!((e.p_ptr, e.q_ptr, e.clk), (0x20000, 0x21000, call.clk));
            assert_eq!((e.p.as_slice(), e.q.as_slice()), (&R1_G[..], &R1_2G[..]));
        }
        _ => panic!("an addition"),
    }
    let record = single_record(secp256r1_double_program());
    let events = record.get_precompile_events(SyscallCode::SECP256R1_DOUBLE).unwrap();
    match &events[0] {
        (_, PrecompileEvent::EcDouble(e)) => {
            assert_eq!((e.p_ptr, e.p.as_slice()), (0x20000, &R1_G[..]));
        }
        _ => panic!("a doubling"),
    }
}

#[test]
fn a_decompressed_point_is_recorded_with_both_coordinates() {
    // The base point of secp256k1.
    let x = [
        0x16f81798, 0x59f2815b, 0x2dce28d9, 0x029bfcdb, 0xce870b07, 0x55a06295, 0xf9dcbbac,
        0x79be667e,
    ];
    let y = [
        0xfb10d4b8, 0x9c47d08f, 0xa6855419, 0xfd17b448, 0x0e1108a8, 0x5da4fbfc, 0x26a3c465,
        0x483ada77,
    ];
    let mut code = vec![];
    store(&mut code, 0x20020, &x);
    call(&mut code, SyscallCode::SECP256K1_DECOMPRESS, [0x20000, 0, 0, 0]);
    let program = commit_and_halt(code, 0x20000, 8);
    let record = single_record(program);
    let events = record.get_precompile_events(SyscallCode::SECP256K1_DECOMPRESS).unwrap();
    match &events[0] {
        (_, PrecompileEvent::EcDecompress(e)) => {
            assert_eq!((e.ptr, e.sign_bit), (0x20000, false));
            assert_eq!((&e.x_bytes, &e.decompressed_y_bytes), (&bytes(&x), &bytes(&y)));
        }
        _ => panic!("a decompression"),
    }
}

#[test]
fn a_sponge_is_recorded_with_its_addresses() {
    let record = single_record(ssz_withdrawals_program());
    let events = record.get_precompile_events(SyscallCode::KECCAK_SPONGE).unwrap();
    match &events[0] {
        (call, PrecompileEvent::KeccakSponge(e)) => {
            assert_eq!((e.input_addr, e.output_addr, e.input_len_u32s), (0x20000, 0x21000, 34));
            assert_eq!((call.arg1, call.arg2, call.clk), (0x20000, 0x21000, e.clk));
        }
        _ => panic!("a sponge"),
    }
}

#[test]
fn every_retired_instruction_leaves_its_event() {
    let record = single_record(simple_program());
    assert_eq!((record.addi_events.len(), record.add_events.len()), (2, 1));
    let sum = &record.add_events[0];
    assert_eq!((sum.opcode, sum.pc, sum.a, sum.b, sum.c), (Opcode::ADD, 8, 42, 37, 5));
    assert_eq!(record.first_instruction_pc, Some(0));
    assert_eq!(record.first_instruction_clk, Some(record.cpu_events[0].clk));
    assert_eq!(record.last_next_pc, 12);
    assert_eq!(record.last_instruction_clk, record.cpu_events[2].clk);
    assert!(record.contains_cpu());
}

#[test]
fn counts_start_at_zero_and_add_up() {
    let driver = ShardDriver::new(Arc::new(halt_only_program()), 64);
    let report = driver.execution_report();
    assert!(report.opcode_counts.iter().chain(&report.syscall_counts).all(|n| *n == 0));
    assert_eq!(report.total, 0);
    let (_, report) =
        execute_fast(Arc::new(halt_only_program()), 64, VecDeque::new(), None, None).unwrap();
    let counts: Vec<(usize, u64)> =
        report.opcode_counts.iter().copied().enumerate().filter(|(_, n)| *n > 0).collect();
    assert_eq!(
        counts.iter().map(|(_, n)| *n).collect::<Vec<u64>>(),
        if Opcode::ADD.index() < Opcode::SYSCALL.index() { [2, 1] } else { [1, 2] }
    );
    assert_eq!(report.syscall_counts[SyscallCode::HALT.index()], 1);
    assert_eq!(report.syscall_counts.iter().sum::<u64>(), 1);
    assert_eq!(report.total, 3);
}

#[test]
fn only_the_last_record_has_global_memory_events() {
    let program = Arc::new(fibonacci_program());
    let records = run_full_pipeline(
        program.clone(),
        64,
        VecDeque::new(),
        AirCosts::filled(1),
        u64::MAX / 2,
        40,
    )
    .unwrap();
    assert!(records.len() > 1);
    let (last, others) = records.split_last().unwrap();
    for record in others {
        assert!(record.global_memory_initialize_events.is_empty());
        assert!(record.global_memory_finalize_events.is_empty());
    }
    assert!(!last.global_memory_finalize_events.is_empty());
    for record in &records {
        assert_eq!(record.program.instructions.len(), program.instructions.len());
        assert_eq!(record.public_values, PublicValues::default());
        assert_eq!(record.stats().count("byte_lookups"), 0);
        assert!(record.cpu_local_memory_access.is_empty());
    }
}

#[test]
fn the_first_chunk_starts_from_nothing() {
    let mut runner = MinimalRunner::new(Arc::new(fibonacci_program()), 16);
    let chunk = runner.try_next_chunk().unwrap().unwrap();
    assert!(chunk.oracle.iter().all(|value| *value == 0));
    assert!(chunk.oracle.len() >= 16);
    assert_eq!(chunk.clk_start, 1);
}

#[test]
fn the_last_address_of_a_word_counts() {
    let mut program = simple_program();
    program.image.insert(0x1000, 1);
    program.image.insert(0x1002, 2);
    program.image.insert(9, 3);
    let mut live = executor::MinimalExecutor::new(Arc::new(program.clone()));
    live.load_image();
    let words: Vec<(u32, u32)> =
        live.memory_records().iter().map(|(addr, record)| (*addr, record.value)).collect();
    assert_eq!(words, vec![(0x1000, 2)]);
    assert_eq!(live.registers()[9], 3);
    let exec = MinimalExecutor::new(Arc::new(program), 4);
    assert_eq!(exec.registers()[9], 3);
}

#[test]
fn an_image_is_no_change_of_a_block() {
    let mut program = Program::new(
        vec![
            Instruction::new(Opcode::ADD, 2, 0, SyscallCode::ENTER_UNCONSTRAINED.id(), false, true),
            Instruction::new(Opcode::SYSCALL, 2, 4, 5, false, false),
            Instruction::new(Opcode::ADD, 9, 0, 5, false, true),
            Instruction::new(Opcode::SW, 9, 0, 0x1000, false, true),
            Instruction::new(Opcode::ADD, 2, 0, SyscallCode::EXIT_UNCONSTRAINED.id(), false, true),
            Instruction::new(Opcode::SYSCALL, 2, 4, 5, false, false),
        ],
        0x100,
        0x100,
    );
    for (addr, value) in [(9, 7), (10, 8), (0x1000, 11), (0x2000, 12)] {
        program.image.insert(addr, value);
    }
    let mut live = executor::MinimalExecutor::new(Arc::new(program));
    for _ in 0..4 {
        live.execute_instruction().unwrap();
    }
    assert!(live.is_unconstrained());
    live.load_image();
    assert_eq!((live.registers()[9], live.registers()[10]), (7, 8));
    for _ in 0..2 {
        live.execute_instruction().unwrap();
    }
    assert!(!live.is_unconstrained());
    // What the block had accessed goes back to what it was before; the rest is as loaded.
    assert_eq!((live.registers()[9], live.registers()[10]), (0, 8));
    let words: Vec<(u32, u32)> =
        live.memory_records().iter().map(|(addr, record)| (*addr, record.value)).collect();
    assert_eq!(words, vec![(0x2000, 12)]);
}

#[test]
fn a_failing_instruction_has_made_its_reads() {
    let mut live = executor::MinimalExecutor::new(Arc::new(Program::new(
        vec![Instruction::new(Opcode::DIV, 8, 9, 10, false, false)],
        0x100,
        0x100,
    )));
    assert_eq!(live.execute_instruction(), Err(ExecutionError::ExceptionOrTrap()));
    let read = |k: usize| live.register_record(k).map(|record| record.timestamp);
    assert!(read(9).is_some() && read(10).is_some());
    assert!(read(10) < read(9));
    assert_eq!((read(8), read(32), read(33)), (None, None, None));
    assert_eq!(live.global_clk(), 0);
    // A jump to zero has linked when it fails.
    let mut live = executor::MinimalExecutor::new(Arc::new(Program::new(
        vec![Instruction::new(Opcode::Jump, 31, 9, 0, false, false)],
        0x100,
        0x100,
    )));
    assert_eq!(live.execute_instruction(), Err(ExecutionError::NullPointerReference()));
    assert!(live.register_record(31).is_some());
    assert_eq!(live.registers()[31], 0x108);
    assert_eq!(live.global_clk(), 0);
}

#[test]
fn accesses_are_timed_from_the_start_of_the_run() {
    let ends = vec![10, 20];
    assert_eq!(run_timestamp(&ends, 0, 5), 5);
    assert_eq!(run_timestamp(&ends, 1, 5), 5);
    assert_eq!(run_timestamp(&ends, 3, 5), 35);
    assert_eq!(run_timestamp(&ends, 9, 5), 35);
    let touched = vec![
        Touched { addr: 9, value: 1, shard: 1, clk: 4 },
        Touched { addr: 0x1000, value: 2, shard: 2, clk: 3 },
        Touched { addr: u32::MAX - 3, value: 3, shard: 2, clk: 3 },
    ];
    let mut image = BTreeMap::new();
    image.insert(9, 1);
    let (mut initialize, mut finalize) = (vec![], vec![]);
    add_touched_events(&touched, &ends, &image, &mut initialize, &mut finalize);
    let listed = |events: &[MemoryInitializeFinalizeEvent]| {
        events.iter().map(|e| (e.addr, e.value, e.timestamp)).collect::<Vec<(u32, u32, u64)>>()
    };
    assert_eq!(listed(&initialize), vec![(0x1000, 0, 0)]);
    assert_eq!(listed(&finalize), vec![(9, 1, 4), (0x1000, 2, 13)]);
}
