//! What a program prints and tracks, and what compiled code leaves to the executor.
use std::sync::Arc;

use zkm_core_executor::aot::handlers::{
    after_shard, enter_syscall, execute_ext, execute_ins, execute_madd, execute_maddu,
    execute_mov_cond, execute_msub, execute_msubu, execute_sext, execute_teq, execute_wsbh,
    leave_syscall, shard_done, BatchStep, SyscallReply,
};
use zkm_core_executor::errors::ExecutionError;
use zkm_core_executor::instruction::Instruction;
use zkm_core_executor::minimal::console::Console;
use zkm_core_executor::minimal::executor::MinimalExecutor;
use zkm_core_executor::opcode::Opcode;
use zkm_core_executor::program::Program;
use zkm_core_executor::state::ExecutionState;
use zkm_core_executor::syscalls::SyscallCode;

#[test]
fn lines_are_printed_when_they_end() {
    let mut console = Console::new();
    assert!(console.io_buf_push(1, "ab").is_empty());
    assert!(console.io_buf_push(2, "error").is_empty());
    assert_eq!(console.io_buf_push(1, "c\nd\n\ne"), vec!["abc", "d", ""]);
    assert_eq!(console.io_buf_push(1, "\n"), vec!["e"]);
    assert_eq!(console.io_buf_push(2, "\u{e4}\n"), vec!["error\u{e4}"]);
    assert!(console.io_buf_push(2, "").is_empty());
}

#[test]
fn spans_are_tracked_by_name() {
    let mut console = Console::new();
    console.cycle_tracker_start("outer", 10);
    console.cycle_tracker_start("inner", 15);
    assert_eq!(console.cycle_tracker_end("inner", 40), Some(25));
    assert_eq!(console.cycle_tracker_end("inner", 41), None);
    console.cycle_tracker_start("outer", 50);
    assert_eq!(console.cycle_tracker_end("outer", 50), Some(0));

    let add = Instruction::new(Opcode::ADD, 8, 8, 1, false, true);
    let mut live = MinimalExecutor::new(Arc::new(Program::new(vec![add; 3], 0, 0)));
    live.load_image();
    live.cycle_tracker_start("two");
    live.execute_instruction().unwrap();
    live.execute_instruction().unwrap();
    assert_eq!(live.cycle_tracker_end("two"), Some(2));
    assert_eq!(live.cycle_tracker_end("two"), None);
    assert_eq!(live.io_buf_push(1, "x\ny"), vec!["x"]);
}

fn state_with(registers: &[(u32, u32)]) -> ExecutionState {
    let mut state = ExecutionState::new(0x1000, 0x1004);
    for (register, value) in registers {
        state.write_register(*register, *value);
    }
    state
}

#[test]
fn instructions_without_code() {
    let mut state = state_with(&[(8, 7), (9, 0x11223344), (10, 0), (32, 200), (33, 100)]);
    let of = |opcode, a, b, c| Instruction::new(opcode, a, b, c, false, false);
    execute_mov_cond(&mut state, &of(Opcode::MEQ, 11, 8, 10));
    assert_eq!(state.read_register(11), 7);
    execute_mov_cond(&mut state, &of(Opcode::MNE, 11, 9, 10));
    assert_eq!(state.read_register(11), 7);
    execute_wsbh(&mut state, &of(Opcode::WSBH, 12, 9, 0));
    assert_eq!(state.read_register(12), 0x22114433);
    execute_sext(&mut state, &of(Opcode::SEXT, 12, 9, 0));
    assert_eq!(state.read_register(12), 0x44);
    execute_ext(&mut state, &of(Opcode::EXT, 12, 9, (7 << 5) + 8)).unwrap();
    assert_eq!(state.read_register(12), 0x33);
    execute_ins(&mut state, &of(Opcode::INS, 12, 8, (7 << 5) + 4)).unwrap();
    assert_eq!(state.read_register(12), 0x73);
    assert_eq!(
        execute_ext(&mut state, &of(Opcode::EXT, 12, 9, (31 << 5) + 8)),
        Err(ExecutionError::ExceptionOrTrap())
    );
    assert!(execute_ins(&mut state, &of(Opcode::INS, 12, 8, 4)).is_err());
    assert_eq!(state.read_register(12), 0x73);
    assert!(execute_teq(&state, &of(Opcode::TEQ, 8, 9, 0)).is_ok());
    assert!(execute_teq(&state, &of(Opcode::TEQ, 8, 11, 0)).is_err());

    execute_maddu(&mut state, &of(Opcode::MADDU, 32, 8, 11));
    assert_eq!((state.read_register(32), state.read_register(33)), (249, 100));
    execute_msubu(&mut state, &of(Opcode::MSUBU, 32, 8, 11));
    execute_madd(&mut state, &of(Opcode::MADD, 32, 8, 11));
    execute_msub(&mut state, &of(Opcode::MSUB, 32, 8, 11));
    assert_eq!((state.read_register(32), state.read_register(33)), (200, 100));
}

#[test]
fn syscalls_of_compiled_code() {
    let mut state = state_with(&[(2, SyscallCode::BN254_FP_SUB.id()), (4, 1), (5, 2)]);
    let request = enter_syscall(&mut state, false, 0x1008).unwrap();
    assert_eq!((request.code, request.arg1, request.arg2), (SyscallCode::BN254_FP_SUB, 1, 2));
    assert_eq!(state.pc, 0x1008);
    assert_eq!(SyscallCode::BN254_FP_SUB.count_map(), SyscallCode::BN254_FP_ADD);
    let reply = SyscallReply { value: None, next_pc: 0x2000, extra_cycles: 1, exit_code: 0 };
    assert_eq!(leave_syscall(&mut state, request, reply), Ok(1));
    assert_eq!(state.clk, 1);
    assert_eq!(state.read_register(2), SyscallCode::BN254_FP_SUB.id());
    assert_eq!(
        enter_syscall(&mut state, true, 0x1008),
        Err(ExecutionError::InvalidSyscallUsage(SyscallCode::BN254_FP_SUB.id() as u64))
    );

    let mut state = state_with(&[(2, SyscallCode::EXIT_UNCONSTRAINED.id())]);
    let request = enter_syscall(&mut state, true, 0x1008).unwrap();
    let reply = SyscallReply { value: Some(9), next_pc: 0x2000, extra_cycles: 0, exit_code: 0 };
    assert_eq!(leave_syscall(&mut state, request, reply), Ok(0x2000));
    assert_eq!(state.read_register(2), 9);

    let mut state = state_with(&[(2, 0)]);
    let halt = enter_syscall(&mut state, false, 0x1008).unwrap();
    assert_eq!(
        leave_syscall(&mut state, halt, SyscallReply { exit_code: 3, ..reply }),
        Err(ExecutionError::HaltWithNonZeroExitCode(3))
    );
    assert_eq!(leave_syscall(&mut state, halt, reply), Ok(0));
    assert!(state.exited);
    assert_eq!((state.pc, state.clk, state.global_clk), (0, 5, 1));
}

#[test]
fn between_shards() {
    let add = Instruction::new(Opcode::ADD, 8, 8, 1, false, true);
    let program = Program::new(vec![add; 3], 0x1000, 0x1000);
    let mut state = ExecutionState::new(0x1008, 0x100c);
    assert_eq!(shard_done(&state, &program, true), Ok(false));
    state.pc = 0x100c;
    assert_eq!(shard_done(&state, &program, false), Ok(true));
    assert_eq!(shard_done(&state, &program, true), Err(ExecutionError::EndInUnconstrained()));
    assert_eq!(after_shard(true, 5, 1), BatchStep::Finish);
    assert_eq!(after_shard(false, 0, 2), BatchStep::Continue);
    assert_eq!(after_shard(false, 1, 2), BatchStep::Pause);
}
