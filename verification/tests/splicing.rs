//! Splicing and the whole pipeline.
use std::collections::{BTreeMap, VecDeque};
use std::sync::Arc;

use zkm_core_executor::chips::is_precompiled;
use zkm_core_executor::cost::AirCosts;
use zkm_core_executor::errors::ExecutionError;
use zkm_core_executor::hook::HookRegistry;
use zkm_core_executor::instruction::Instruction;
use zkm_core_executor::minimal::executor;
use zkm_core_executor::minimal::MinimalExecutor;
use zkm_core_executor::opcode::Opcode;
use zkm_core_executor::pipeline::{
    execute_fast, next_shard, run_full_pipeline, trace_shard, ShardDriver,
};
use zkm_core_executor::program::Program;
use zkm_core_executor::record::ExecutionRecord;
use zkm_core_executor::splicing::{SplicingStatus, SplicingVM};
use zkm_core_executor::syscalls::{SyscallCode, FD_FP_INV, FD_PUBLIC_VALUES};
use zkm_core_executor::trace::MinimalTrace;
use zkm_core_executor::tracing::TracingVM;

fn simple_program() -> Program {
    let instructions = vec![
        Instruction::new(Opcode::ADD, 29, 0, 5, false, true),
        Instruction::new(Opcode::ADD, 30, 0, 37, false, true),
        Instruction::new(Opcode::ADD, 31, 30, 29, false, false),
    ];
    Program::new(instructions, 0, 0)
}

fn halt_only_program() -> Program {
    let instructions = vec![
        Instruction::new(Opcode::ADD, 2, 0, 0, false, true),
        Instruction::new(Opcode::ADD, 4, 0, 0, false, true),
        Instruction::new(Opcode::SYSCALL, 2, 4, 5, false, false),
    ];
    Program::new(instructions, 0, 0)
}

/// Computes the first 200 Fibonacci numbers modulo 2^32 into memory and halts.
fn fibonacci_program() -> Program {
    let instructions = vec![
        Instruction::new(Opcode::ADD, 8, 0, 0, false, true),
        Instruction::new(Opcode::ADD, 9, 0, 1, false, true),
        Instruction::new(Opcode::ADD, 10, 0, 200, false, true),
        Instruction::new(Opcode::ADD, 11, 0, 0x10000, false, true),
        Instruction::new(Opcode::ADD, 12, 8, 9, false, false),
        Instruction::new(Opcode::ADD, 8, 9, 0, false, true),
        Instruction::new(Opcode::ADD, 9, 12, 0, false, true),
        Instruction::new(Opcode::SW, 8, 11, 0, false, true),
        Instruction::new(Opcode::LW, 13, 11, 0, false, true),
        Instruction::new(Opcode::ADD, 11, 11, 4, false, true),
        Instruction::new(Opcode::ADD, 10, 10, 0xffff_ffff, false, true),
        Instruction::new(Opcode::BNE, 10, 0, 0xffff_ffe0, false, true),
        Instruction::new(Opcode::ADD, 14, 10, 0, false, true),
        Instruction::new(Opcode::ADD, 2, 0, 0, false, true),
        Instruction::new(Opcode::ADD, 4, 0, 0, false, true),
        Instruction::new(Opcode::SYSCALL, 2, 4, 5, false, false),
    ];
    Program::new(instructions, 0, 0)
}

/// Reads the first hint of eight bytes and loads its two words.
fn hint_read_program() -> Program {
    const PTR: u32 = 0x27654320;
    let instructions = vec![
        Instruction::new(Opcode::ADD, 2, 0, SyscallCode::SYSHINTLEN.id(), false, true),
        Instruction::new(Opcode::ADD, 4, 0, 0, false, true),
        Instruction::new(Opcode::ADD, 5, 0, 0, false, true),
        Instruction::new(Opcode::SYSCALL, 2, 4, 5, false, false),
        Instruction::new(Opcode::ADD, 8, 2, 0, false, true),
        Instruction::new(Opcode::ADD, 4, 0, PTR, false, true),
        Instruction::new(Opcode::ADD, 5, 8, 0, false, true),
        Instruction::new(Opcode::ADD, 2, 0, SyscallCode::SYSHINTREAD.id(), false, true),
        Instruction::new(Opcode::SYSCALL, 2, 4, 5, false, false),
        Instruction::new(Opcode::LW, 9, 0, PTR, false, true),
        Instruction::new(Opcode::LW, 10, 0, PTR + 4, false, true),
        Instruction::new(Opcode::ADD, 2, 0, 0, false, true),
        Instruction::new(Opcode::ADD, 4, 0, 0, false, true),
        Instruction::new(Opcode::SYSCALL, 2, 4, 5, false, false),
    ];
    Program::new(instructions, 0, 0)
}

/// Asks the inverse hook for the inverse of 3 modulo 7 and commits it.
fn hook_fp_inverse_program() -> Program {
    const REQ_PTR: u32 = 0x1000;
    const RESULT_PTR: u32 = 0x2000;
    let instructions = vec![
        Instruction::new(Opcode::ADD, 8, 0, 0x01000000, false, true),
        Instruction::new(Opcode::SW, 8, 0, REQ_PTR, false, true),
        Instruction::new(Opcode::ADD, 8, 0, 0x0000_0703, false, true),
        Instruction::new(Opcode::SW, 8, 0, REQ_PTR + 4, false, true),
        Instruction::new(Opcode::ADD, 2, 0, SyscallCode::WRITE.id(), false, true),
        Instruction::new(Opcode::ADD, 4, 0, FD_FP_INV, false, true),
        Instruction::new(Opcode::ADD, 5, 0, REQ_PTR, false, true),
        Instruction::new(Opcode::ADD, 6, 0, 6, false, true),
        Instruction::new(Opcode::SYSCALL, 2, 4, 5, false, false),
        Instruction::new(Opcode::ADD, 2, 0, SyscallCode::SYSHINTLEN.id(), false, true),
        Instruction::new(Opcode::ADD, 4, 0, 0, false, true),
        Instruction::new(Opcode::ADD, 5, 0, 0, false, true),
        Instruction::new(Opcode::SYSCALL, 2, 4, 5, false, false),
        Instruction::new(Opcode::ADD, 9, 2, 0, false, true),
        Instruction::new(Opcode::ADD, 4, 0, RESULT_PTR, false, true),
        Instruction::new(Opcode::ADD, 5, 9, 0, false, true),
        Instruction::new(Opcode::ADD, 2, 0, SyscallCode::SYSHINTREAD.id(), false, true),
        Instruction::new(Opcode::SYSCALL, 2, 4, 5, false, false),
        Instruction::new(Opcode::LW, 10, 0, RESULT_PTR, false, true),
        Instruction::new(Opcode::ADD, 2, 0, SyscallCode::WRITE.id(), false, true),
        Instruction::new(Opcode::ADD, 4, 0, FD_PUBLIC_VALUES, false, true),
        Instruction::new(Opcode::ADD, 5, 0, RESULT_PTR, false, true),
        Instruction::new(Opcode::ADD, 6, 0, 4, false, true),
        Instruction::new(Opcode::SYSCALL, 2, 4, 5, false, false),
        Instruction::new(Opcode::ADD, 2, 0, 0, false, true),
        Instruction::new(Opcode::ADD, 4, 0, 0, false, true),
        Instruction::new(Opcode::SYSCALL, 2, 4, 5, false, false),
    ];
    Program::new(instructions, 0, 0)
}

/// Stores words one after the other.
fn store(code: &mut Vec<Instruction>, addr: u32, words: &[u32]) {
    for (k, word) in words.iter().enumerate() {
        code.push(Instruction::new(Opcode::ADD, 8, 0, *word, false, true));
        code.push(Instruction::new(Opcode::SW, 8, 0, addr + 4 * k as u32, false, true));
    }
}

/// Makes a system call.
fn call(code: &mut Vec<Instruction>, syscall: SyscallCode, args: [u32; 4]) {
    code.push(Instruction::new(Opcode::ADD, 2, 0, syscall.id(), false, true));
    for (k, arg) in args.iter().enumerate() {
        code.push(Instruction::new(Opcode::ADD, 4 + k as u8, 0, *arg, false, true));
    }
    code.push(Instruction::new(Opcode::SYSCALL, 2, 4, 5, false, false));
}

/// Commits words and halts.
fn commit_and_halt(mut code: Vec<Instruction>, addr: u32, len: u32) -> Program {
    call(&mut code, SyscallCode::WRITE, [3, addr, 4 * len, 0]);
    call(&mut code, SyscallCode::HALT, [0; 4]);
    Program::new(code, 0x1000, 0x1000)
}

/// Prints a line on the standard output.
fn hello_world_program() -> Program {
    let mut code = vec![];
    store(&mut code, 0x20000, &[0x6c6c6548, 0x57202c6f, 0x646c726f, 0x00000a21]);
    call(&mut code, SyscallCode::WRITE, [1, 0x20000, 14, 0]);
    commit_and_halt(code, 0x20000, 1)
}

/// The base point of secp256r1.
const R1_G: [u32; 16] = [
    0xd898c296, 0xf4a13945, 0x2deb33a0, 0x77037d81,
    0x63a440f2, 0xf8bce6e5, 0xe12c4247, 0x6b17d1f2,
    0x37bf51f5, 0xcbb64068, 0x6b315ece, 0x2bce3357,
    0x7c0f9e16, 0x8ee7eb4a, 0xfe1a7f9b, 0x4fe342e2,
];
/// Twice the base point.
const R1_2G: [u32; 16] = [
    0x47669978, 0xa60b48fc, 0x77f21b35, 0xc08969e2,
    0x04b51ac3, 0x8a523803, 0x8d034f7e, 0x7cf27b18,
    0x227873d1, 0x9e04b79d, 0x3ce98229, 0xba7dade6,
    0x9f7430db, 0x293d9ac6, 0xdb8ed040, 0x07775510,
];

/// Adds the base point of secp256r1 to its double.
fn secp256r1_add_program() -> Program {
    let mut code = vec![];
    store(&mut code, 0x20000, &R1_G);
    store(&mut code, 0x21000, &R1_2G);
    call(&mut code, SyscallCode::SECP256R1_ADD, [0x20000, 0x21000, 0, 0]);
    commit_and_halt(code, 0x20000, 16)
}

/// Finds the base point of Ed25519 from its ordinate.
fn ed_decompress_program() -> Program {
    let mut code = vec![];
    store(
        &mut code,
        0x20020,
        &[0x66666658, 0x66666666, 0x66666666, 0x66666666, 0x66666666, 0x66666666, 0x66666666, 0x66666666],
    );
    call(&mut code, SyscallCode::ED_DECOMPRESS, [0x20000, 0, 0, 0]);
    commit_and_halt(code, 0x20000, 8)
}

/// Compresses one block of the empty message.
fn sha_compress_program() -> Program {
    let mut code = vec![];
    let mut w = [0u32; 64];
    w[0] = 0x80000000;
    store(&mut code, 0x20000, &w);
    store(
        &mut code,
        0x21000,
        &[
            0x6a09e667, 0xbb67ae85, 0x3c6ef372, 0xa54ff53a, 0x510e527f, 0x9b05688c, 0x1f83d9ab,
            0x5be0cd19,
        ],
    );
    call(&mut code, SyscallCode::SHA_EXTEND, [0x20000, 0, 0, 0]);
    call(&mut code, SyscallCode::SHA_COMPRESS, [0x20000, 0x21000, 0, 0]);
    commit_and_halt(code, 0x21000, 8)
}

fn run_splicing(
    program: impl Fn() -> Program,
    element_threshold: u64,
    height_threshold: u64,
) -> (usize, [u32; 36], u32, u64) {
    let program = Arc::new(program());
    let mut minimal = MinimalExecutor::new(program.clone(), u64::MAX / 2);
    let chunk = minimal.try_execute_chunk().unwrap().unwrap();
    let mut splicing = SplicingVM::new(
        &chunk,
        program.clone(),
        minimal.max_syscall_cycles(),
        AirCosts::filled(1),
        element_threshold,
        height_threshold,
    );
    let mut num_shards = 0;
    let mut traced = 0;
    loop {
        let status = splicing.execute().unwrap();
        match status {
            SplicingStatus::ShardBoundary => {
                assert!(
                    splicing.current_shape_totals().0 >= element_threshold
                        || splicing.current_shape_totals().1 >= height_threshold,
                    "a shard ended, but neither threshold was crossed"
                );
            }
            SplicingStatus::Done => {}
            SplicingStatus::TraceEnd => {
                panic!("expected the whole run to fit in a single chunk")
            }
        }
        let spliced = splicing.splice(&chunk);
        num_shards += 1;
        let mut tracing =
            TracingVM::new(&spliced, program.clone(), minimal.max_syscall_cycles());
        tracing.execute().unwrap();
        traced += tracing.into_record().cpu_events.len();
        assert!(spliced.clk_start() < spliced.clk_end());
        if matches!(status, SplicingStatus::Done) {
            break;
        }
    }
    assert_eq!(traced as u64, minimal.retired(), "every instruction is traced once");
    (num_shards, splicing.registers(), splicing.pc(), splicing.clk())
}

fn assert_single_shard_matches_minimal(program: impl Fn() -> Program, name: &str) {
    let mut minimal = MinimalExecutor::new(Arc::new(program()), u64::MAX / 2);
    let _ = minimal.try_execute_chunk().unwrap();
    let (num_shards, registers, pc, clk) = run_splicing(program, u64::MAX / 2, u64::MAX / 2);
    assert_eq!(num_shards, 1, "{name}: expected exactly one shard with generous thresholds");
    assert_eq!(registers, minimal.registers(), "{name}: register mismatch");
    assert_eq!(pc, minimal.pc(), "{name}: pc mismatch");
    assert_eq!(clk, minimal.clk(), "{name}: clk mismatch");
}

#[test]
fn splicing_single_shard_matches_minimal_simple_program() {
    assert_single_shard_matches_minimal(simple_program, "simple_program");
}

#[test]
fn splicing_single_shard_matches_minimal_halt_only_program() {
    assert_single_shard_matches_minimal(halt_only_program, "halt_only_program");
}

#[test]
fn splicing_single_shard_matches_minimal_fibonacci_real_elf() {
    assert_single_shard_matches_minimal(fibonacci_program, "fibonacci_program");
}

#[test]
fn splicing_single_shard_matches_minimal_hello_world_real_elf() {
    assert_single_shard_matches_minimal(hello_world_program, "hello_world_program");
}

#[test]
fn splicing_many_shards_still_matches_minimal_fibonacci_real_elf() {
    let mut minimal = MinimalExecutor::new(Arc::new(fibonacci_program()), u64::MAX / 2);
    let _ = minimal.try_execute_chunk().unwrap();
    let (num_shards, registers, pc, clk) = run_splicing(fibonacci_program, u64::MAX / 2, 40);
    assert!(num_shards > 1, "expected a tight height_threshold to force multiple shards, got 1");
    assert_eq!(registers, minimal.registers(), "register mismatch");
    assert_eq!(pc, minimal.pc(), "pc mismatch");
    assert_eq!(clk, minimal.clk(), "clk mismatch");
}

/// The kind of event that an instruction leaves in a record.
fn kind(i: &Instruction) -> &'static str {
    let to_zero = i.op_a == 0;
    match i.opcode {
        Opcode::ADD if i.imm_b && i.imm_c && to_zero && i.op_b == 0 && i.op_c == 0 => {
            "add_noop_events"
        }
        Opcode::ADD if i.imm_c && !i.imm_b => "addi_events",
        Opcode::ADD if !to_zero => "add_events",
        Opcode::SLL if i.imm_b => "lui_events",
        Opcode::ADD | Opcode::SLL if to_zero => "alu_x0_events",
        Opcode::SLL => "shift_left_events",
        Opcode::LW if to_zero => "load_x0_events",
        Opcode::LW => "load_word_events",
        Opcode::SW => "store_word_events",
        Opcode::BNE => "branch_events",
        Opcode::SYSCALL => "",
        _ => panic!("an opcode without a known kind"),
    }
}

/// The names under which events are counted.
const KINDS: [&str; 13] = [
    "cpu_events",
    "add_noop_events",
    "addi_events",
    "add_events",
    "lui_events",
    "alu_x0_events",
    "shift_left_events",
    "load_x0_events",
    "load_word_events",
    "store_word_events",
    "branch_events",
    "jump_events",
    "mul_events",
];

/// The precompiled operations that the programs use.
const CALLS: [SyscallCode; 7] = [
    SyscallCode::SECP256R1_ADD,
    SyscallCode::SECP256R1_DOUBLE,
    SyscallCode::U256XU2048_MUL,
    SyscallCode::KECCAK_SPONGE,
    SyscallCode::SHA_EXTEND,
    SyscallCode::SHA_COMPRESS,
    SyscallCode::ED_DECOMPRESS,
];

/// The number of events of each kind over all records of a run.
fn recorded_counts(records: &[ExecutionRecord]) -> BTreeMap<String, usize> {
    let names = KINDS.iter().map(|kind| kind.to_string());
    let calls = CALLS.iter().map(|code| format!("syscall {}", code.name()));
    let mut counts = BTreeMap::new();
    for name in names.chain(calls) {
        let count: usize = records.iter().map(|record| record.stats().count(&name)).sum();
        if count > 0 {
            counts.insert(name, count);
        }
    }
    counts
}

/// Steps a program to its end and counts the events that its instructions call for.
fn step(program: &Program) -> (executor::MinimalExecutor, BTreeMap<String, usize>) {
    let mut counts: BTreeMap<String, usize> = BTreeMap::new();
    let mut live = executor::MinimalExecutor::new(Arc::new(program.clone()));
    live.load_image();
    loop {
        let i = &program.instructions[((live.pc() - program.pc_base) / 4) as usize];
        let code = SyscallCode::from_u32(live.registers()[2]);
        let name = match i.opcode {
            Opcode::SYSCALL if is_precompiled(code) => format!("syscall {}", code.name()),
            _ => kind(i).to_string(),
        };
        let done = live.execute_instruction().expect("the reference run failed");
        for name in ["cpu_events".to_string(), name] {
            *counts.entry(name).or_insert(0) += 1;
        }
        if done {
            counts.remove("");
            return (live, counts);
        }
    }
}

fn run_live(program: Program) -> executor::MinimalExecutor {
    step(&program).0
}

#[test]
fn splicing_many_shards_matches_golden_fibonacci_real_elf() {
    let golden = run_live(fibonacci_program());
    let (num_shards, registers, pc, clk) = run_splicing(fibonacci_program, u64::MAX / 2, 40);
    assert!(num_shards > 1, "expected tight thresholds to force multiple shards, got 1");
    assert_eq!(registers, golden.registers(), "register mismatch vs. golden");
    assert_eq!(pc, golden.pc(), "pc mismatch vs. golden");
    assert_eq!(clk, golden.clk(), "clk mismatch vs. golden");
}

fn assert_pipeline_matches_live(
    program: impl Fn() -> Program,
    max_trace_size: u64,
    height_threshold: u64,
) -> usize {
    let (golden, golden_counts) = step(&program());
    let mut minimal = MinimalExecutor::new(Arc::new(program()), u64::MAX / 2);
    while minimal.try_execute_chunk().unwrap().is_some() {}
    let (initialized, finalized) = minimal.global_memory_events().unwrap();
    let records = run_full_pipeline(
        Arc::new(program()),
        max_trace_size,
        VecDeque::new(),
        AirCosts::filled(1),
        u64::MAX / 2,
        height_threshold,
    )
    .unwrap();
    assert_eq!(recorded_counts(&records), golden_counts, "event counts mismatch");
    let last = records.last().unwrap();
    assert_eq!(records[0].first_instruction_pc, Some(program().pc_start));
    assert_eq!(last.last_next_pc, golden.pc());
    assert!(records.iter().all(|r| r.contains_cpu()));
    let retired: usize = records.iter().map(|r| r.cpu_events.len()).sum();
    assert_eq!(retired as u64, golden.global_clk(), "instruction count mismatch");
    assert_eq!(
        last.global_memory_initialize_events.len(),
        initialized.len()
    );
    assert_eq!(
        last.global_memory_finalize_events.len(),
        finalized.len()
    );
    records.len()
}

#[test]
fn pipeline_matches_golden_simple_program() {
    assert_eq!(assert_pipeline_matches_live(simple_program, u64::MAX / 2, u64::MAX / 2), 1);
}

#[test]
fn pipeline_matches_golden_halt_only_program() {
    assert_eq!(assert_pipeline_matches_live(halt_only_program, u64::MAX / 2, u64::MAX / 2), 1);
}

#[test]
fn pipeline_matches_golden_fibonacci_real_elf() {
    assert_eq!(assert_pipeline_matches_live(fibonacci_program, u64::MAX / 2, u64::MAX / 2), 1);
}

#[test]
fn pipeline_matches_golden_hello_world_real_elf() {
    assert_eq!(assert_pipeline_matches_live(hello_world_program, u64::MAX / 2, u64::MAX / 2), 1);
}

fn committed(program: Program) -> Vec<u32> {
    run_live(program)
        .public_values_stream()
        .chunks(4)
        .map(|c| u32::from_le_bytes([c[0], c[1], c[2], c[3]]))
        .collect()
}

#[test]
fn matches_golden_ed_decompress_real_elf() {
    assert_eq!(assert_pipeline_matches_live(ed_decompress_program, u64::MAX / 2, u64::MAX / 2), 1);
    assert_eq!(
        committed(ed_decompress_program()),
        vec![0x8f25d51a, 0xc9562d60, 0x9525a7b2, 0x692cc760, 0xfdd6dc5c, 0xc0a4e231, 0xcd6e53fe, 0x216936d3]
    );
}

#[test]
fn matches_golden_sha_compress_real_elf() {
    assert_eq!(assert_pipeline_matches_live(sha_compress_program, u64::MAX / 2, u64::MAX / 2), 1);
    assert_eq!(
        committed(sha_compress_program()),
        vec![
            0xe3b0c442, 0x98fc1c14, 0x9afbf4c8, 0x996fb924, 0x27ae41e4, 0x649b934c, 0xa495991b,
            0x7852b855
        ]
    );
}

#[test]
fn matches_golden_secp256r1_add_real_elf() {
    assert_eq!(assert_pipeline_matches_live(secp256r1_add_program, u64::MAX / 2, u64::MAX / 2), 1);
}

#[test]
fn matches_golden_fibonacci_real_elf_many_shards_and_chunks() {
    assert!(assert_pipeline_matches_live(fibonacci_program, 64, 40) > 1);
}

#[test]
fn shards_come_one_at_a_time() {
    let program = Arc::new(fibonacci_program());
    let golden = run_live(fibonacci_program());
    let mut driver = ShardDriver::new(program.clone(), 64);
    let cycles = driver.max_syscall_cycles();
    let mut retired = 0;
    let mut shards = 0;
    let mut clk = 1;
    loop {
        let (spliced, done) =
            next_shard(&mut driver, program.clone(), AirCosts::filled(1), u64::MAX / 2, 40)
                .unwrap();
        assert_eq!(spliced.clk_start(), clk, "a shard starts where the one before it ended");
        clk = spliced.clk_end();
        let record = trace_shard(program.clone(), &spliced, cycles).unwrap();
        retired += record.cpu_events.len();
        shards += 1;
        if done {
            break;
        }
    }
    assert!(shards > 1);
    assert_eq!(clk, golden.clk());
    assert_eq!(driver.clk(), golden.clk());
    assert_eq!(retired as u64, golden.global_clk());
}

#[test]
fn execute_fast_invokes_default_hooks() {
    let (public_values, report) = execute_fast(
        Arc::new(hook_fp_inverse_program()),
        u64::MAX / 2,
        VecDeque::new(),
        Some(HookRegistry::new()),
        None,
    )
    .unwrap();
    assert_eq!(public_values, vec![5, 0, 0, 0], "wrong fp_inverse hook result");
    assert!(report.total_instruction_count() > 0);
}

#[test]
fn execute_fast_without_hooks_never_invokes_them() {
    let result = execute_fast(
        Arc::new(hook_fp_inverse_program()),
        u64::MAX / 2,
        VecDeque::new(),
        None,
        None,
    );
    assert!(matches!(result, Err(ExecutionError::InvalidSyscallArgs())));
}

#[test]
fn execute_fast_respects_max_cycles() {
    let result = execute_fast(
        Arc::new(fibonacci_program()),
        u64::MAX / 2,
        VecDeque::new(),
        None,
        Some(1),
    );
    assert!(matches!(result, Err(ExecutionError::ExceededCycleLimit(1))));
}

#[test]
fn hints_reach_memory() {
    let mut stdin = VecDeque::new();
    stdin.push_back(vec![1, 2, 3, 4, 5, 6, 7, 8]);
    let mut exec =
        MinimalExecutor::new_with_stdin(Arc::new(hint_read_program()), u64::MAX / 2, stdin);
    while exec.try_execute_chunk().unwrap().is_some() {}
    assert_eq!(exec.registers()[9], 0x04030201);
    assert_eq!(exec.registers()[10], 0x08070605);
    assert_eq!(exec.registers()[8], 8);

    let mut live = executor::MinimalExecutor::new(Arc::new(hint_read_program()));
    live.load_image();
    live.add_input(vec![1, 2, 3, 4, 5, 6, 7, 8]);
    while !live.execute_instruction().unwrap() {}
    assert_eq!(live.registers(), exec.registers());
}

fn fails_with(instructions: Vec<Instruction>) -> ExecutionError {
    let last = instructions[instructions.len() - 1];
    execute_fast(
        Arc::new(Program::new(instructions, 0x1000, 0x1000)),
        u64::MAX / 2,
        VecDeque::new(),
        None,
        None,
    )
    .err()
    .unwrap_or_else(|| panic!("the run of {last:?} succeeds"))
}

#[test]
fn every_error_of_a_run() {
    let set = |r: u8, v: u32| Instruction::new(Opcode::ADD, r, 0, v, false, true);
    let call = Instruction::new(Opcode::SYSCALL, 2, 4, 5, false, false);
    assert_eq!(
        fails_with(vec![set(2, 0), set(4, 7), call]),
        ExecutionError::HaltWithNonZeroExitCode(7)
    );
    assert_eq!(
        fails_with(vec![Instruction::new(Opcode::LW, 8, 0, 0x1001, false, true)]),
        ExecutionError::InvalidMemoryAccess(Opcode::LW, 0x1001)
    );
    assert_eq!(
        fails_with(vec![Instruction::new(Opcode::LW, 8, 0, 0xfffffff0, false, true)]),
        ExecutionError::MemoryOutOfBoundsAccess(0xfffffff0)
    );
    assert_eq!(
        fails_with(vec![set(8, 1), Instruction::new(Opcode::DIV, 32, 8, 0, false, false)]),
        ExecutionError::ExceptionOrTrap()
    );
    assert_eq!(
        fails_with(vec![Instruction::new(Opcode::TEQ, 0, 0, 0, false, true)]),
        ExecutionError::ExceptionOrTrap()
    );
    assert!(matches!(
        fails_with(vec![Instruction::new(Opcode::UNIMPL, 0, 0, 0, true, true)]),
        ExecutionError::UnsupportedInstruction(_) | ExecutionError::Unimplemented()
    ));
    let ends_in_a_fork = vec![set(2, SyscallCode::ENTER_UNCONSTRAINED.id()), call];
    let mut live =
        executor::MinimalExecutor::new(Arc::new(Program::new(ends_in_a_fork, 0x1000, 0x1000)));
    live.load_image();
    assert!(matches!(live.execute_instruction(), Ok(false)));
    assert!(matches!(live.execute_instruction(), Err(ExecutionError::EndInUnconstrained())));
}
