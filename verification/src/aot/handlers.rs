//! What compiled code leaves to the executor: the instructions that it has no code for, the
//! decisions around a syscall, and the decisions between shards.
use vstd::prelude::*;

use crate::arithmetic;
use crate::consts::DEFAULT_CLK_INC;
use crate::errors::ExecutionError;
use crate::instruction::Instruction;
use crate::memory::config::MIPS_REGISTER_SPACE;
use crate::opcode::{OpClass, Opcode};
use crate::program::Program;
use crate::register::{Register, NUM_REGISTERS};
use crate::state::ExecutionState;
use crate::syscalls::SyscallCode;
use crate::vm;

verus! {

/// The value of a register.
pub open spec fn held(state: ExecutionState, register: u8) -> u32 {
    state.memory@[(MIPS_REGISTER_SPACE, register as u32)]
}

/// The state after a register is set.
pub open spec fn set(before: ExecutionState, after: ExecutionState, register: u8, value: u32) -> bool {
    &&& after == (ExecutionState { memory: after.memory, ..before })
    &&& after.memory@ == before.memory@.insert((MIPS_REGISTER_SPACE, register as u32), value)
}

/// Whether the operands of an instruction, as far as they are used, are registers.
pub open spec fn names_registers(i: Instruction) -> bool {
    &&& i.op_a < NUM_REGISTERS
    &&& (i.op_b as u8) < NUM_REGISTERS
    &&& match i.opcode {
        Opcode::MEQ | Opcode::MNE | Opcode::MADDU | Opcode::MSUBU | Opcode::MADD | Opcode::MSUB => (
        i.op_c as u8) < NUM_REGISTERS,
        _ => true,
    }
}

/// Execute a conditional move.
pub fn execute_mov_cond(state: &mut ExecutionState, instruction: &Instruction)
    requires
        old(state).wf(),
        instruction.opcode.class() == OpClass::MovCond,
        names_registers(*instruction),
    ensures
        final(state).wf(),
        set(
            *old(state),
            *final(state),
            instruction.op_a,
            vm::moved(
                instruction.opcode,
                held(*old(state), instruction.op_a),
                held(*old(state), instruction.op_b as u8),
                held(*old(state), instruction.op_c as u8),
            ),
        ),
{
    let rd: u32 = instruction.op_a as u32;
    let a: u32 = state.read_register(rd);
    let c: u32 = state.read_register((instruction.op_c as u8) as u32);
    let b: u32 = state.read_register((instruction.op_b as u8) as u32);
    state.write_register(rd, vm::condmov_result(instruction.opcode, a, b, c));
}

/// The state after a multiply-accumulate.
pub open spec fn accumulated(before: ExecutionState, after: ExecutionState, i: Instruction) -> bool {
    let out = vm::madd_result(
        i.opcode,
        held(before, i.op_b as u8),
        held(before, i.op_c as u8),
        held(before, Register::LO.number()),
        held(before, Register::HI.number()),
    );
    &&& after == (ExecutionState { memory: after.memory, ..before })
    &&& after.memory@ == before.memory@.insert(
        (MIPS_REGISTER_SPACE, i.op_a as u32),
        out.0,
    ).insert((MIPS_REGISTER_SPACE, Register::HI.number() as u32), out.1)
}

/// Execute an unsigned multiply-add: the low word goes to the first operand, the high word to `HI`.
pub fn execute_maddu(state: &mut ExecutionState, instruction: &Instruction)
    requires
        old(state).wf(),
        instruction.opcode == Opcode::MADDU,
        names_registers(*instruction),
    ensures
        final(state).wf(),
        accumulated(*old(state), *final(state), *instruction),
{
    let c: u32 = state.read_register((instruction.op_c as u8) as u32);
    let b: u32 = state.read_register((instruction.op_b as u8) as u32);
    let lo: u32 = state.read_register(Register::LO.index() as u32);
    let hi: u32 = state.read_register(Register::HI.index() as u32);
    let (out_lo, out_hi) = vm::maddu(b, c, lo, hi);
    state.write_register(instruction.op_a as u32, out_lo);
    state.write_register(Register::HI.index() as u32, out_hi);
}

/// Execute an unsigned multiply-subtract: the low word goes to the first operand, the high word to `HI`.
pub fn execute_msubu(state: &mut ExecutionState, instruction: &Instruction)
    requires
        old(state).wf(),
        instruction.opcode == Opcode::MSUBU,
        names_registers(*instruction),
    ensures
        final(state).wf(),
        accumulated(*old(state), *final(state), *instruction),
{
    let c: u32 = state.read_register((instruction.op_c as u8) as u32);
    let b: u32 = state.read_register((instruction.op_b as u8) as u32);
    let lo: u32 = state.read_register(Register::LO.index() as u32);
    let hi: u32 = state.read_register(Register::HI.index() as u32);
    let (out_lo, out_hi) = vm::msubu(b, c, lo, hi);
    state.write_register(instruction.op_a as u32, out_lo);
    state.write_register(Register::HI.index() as u32, out_hi);
}

/// Execute a signed multiply-add: the low word goes to the first operand, the high word to `HI`.
pub fn execute_madd(state: &mut ExecutionState, instruction: &Instruction)
    requires
        old(state).wf(),
        instruction.opcode == Opcode::MADD,
        names_registers(*instruction),
    ensures
        final(state).wf(),
        accumulated(*old(state), *final(state), *instruction),
{
    let c: u32 = state.read_register((instruction.op_c as u8) as u32);
    let b: u32 = state.read_register((instruction.op_b as u8) as u32);
    let lo: u32 = state.read_register(Register::LO.index() as u32);
    let hi: u32 = state.read_register(Register::HI.index() as u32);
    let (out_lo, out_hi) = vm::madd(b, c, lo, hi);
    state.write_register(instruction.op_a as u32, out_lo);
    state.write_register(Register::HI.index() as u32, out_hi);
}

/// Execute a signed multiply-subtract: the low word goes to the first operand, the high word to `HI`.
pub fn execute_msub(state: &mut ExecutionState, instruction: &Instruction)
    requires
        old(state).wf(),
        instruction.opcode == Opcode::MSUB,
        names_registers(*instruction),
    ensures
        final(state).wf(),
        accumulated(*old(state), *final(state), *instruction),
{
    let c: u32 = state.read_register((instruction.op_c as u8) as u32);
    let b: u32 = state.read_register((instruction.op_b as u8) as u32);
    let lo: u32 = state.read_register(Register::LO.index() as u32);
    let hi: u32 = state.read_register(Register::HI.index() as u32);
    let (out_lo, out_hi) = vm::msub(b, c, lo, hi);
    state.write_register(instruction.op_a as u32, out_lo);
    state.write_register(Register::HI.index() as u32, out_hi);
}

/// Swap the two bytes of each half of a word.
pub fn execute_wsbh(state: &mut ExecutionState, instruction: &Instruction)
    requires
        old(state).wf(),
        names_registers(*instruction),
    ensures
        final(state).wf(),
        set(
            *old(state),
            *final(state),
            instruction.op_a,
            vm::swap_halves_bytes(held(*old(state), instruction.op_b as u8)),
        ),
{
    let b: u32 = state.read_register((instruction.op_b as u8) as u32);
    state.write_register(instruction.op_a as u32, vm::wsbh(b));
}

/// Extract a bit field. A field that leaves the word traps and changes nothing.
pub fn execute_ext(state: &mut ExecutionState, instruction: &Instruction) -> (r: Result<
    (),
    ExecutionError,
>)
    requires
        old(state).wf(),
        names_registers(*instruction),
    ensures
        final(state).wf(),
        vm::extract_traps(instruction.op_c) ==> r == Err::<(), _>(ExecutionError::ExceptionOrTrap())
            && *final(state) == *old(state),
        !vm::extract_traps(instruction.op_c) ==> r is Ok && set(
            *old(state),
            *final(state),
            instruction.op_a,
            vm::extract(held(*old(state), instruction.op_b as u8), instruction.op_c),
        ),
{
    let b: u32 = state.read_register((instruction.op_b as u8) as u32);
    match vm::ext(b, instruction.op_c) {
        Ok(a) => {
            state.write_register(instruction.op_a as u32, a);
            Ok(())
        },
        Err(e) => Err(e),
    }
}

/// Extend the sign of a byte, or of a half when the last operand is not zero.
pub fn execute_sext(state: &mut ExecutionState, instruction: &Instruction)
    requires
        old(state).wf(),
        names_registers(*instruction),
    ensures
        final(state).wf(),
        set(
            *old(state),
            *final(state),
            instruction.op_a,
            vm::sext_result(held(*old(state), instruction.op_b as u8), instruction.op_c),
        ),
{
    let b: u32 = state.read_register((instruction.op_b as u8) as u32);
    state.write_register(instruction.op_a as u32, vm::sext(b, instruction.op_c));
}

/// Insert a bit field. A field that leaves the word traps and changes nothing.
pub fn execute_ins(state: &mut ExecutionState, instruction: &Instruction) -> (r: Result<
    (),
    ExecutionError,
>)
    requires
        old(state).wf(),
        names_registers(*instruction),
    ensures
        final(state).wf(),
        vm::insert_traps(instruction.op_c) ==> r == Err::<(), _>(ExecutionError::ExceptionOrTrap())
            && *final(state) == *old(state),
        !vm::insert_traps(instruction.op_c) ==> r is Ok && set(
            *old(state),
            *final(state),
            instruction.op_a,
            vm::inserted(
                held(*old(state), instruction.op_a),
                held(*old(state), instruction.op_b as u8),
                instruction.op_c,
            ),
        ),
{
    let b: u32 = state.read_register((instruction.op_b as u8) as u32);
    let a: u32 = state.read_register(instruction.op_a as u32);
    match vm::ins(a, b, instruction.op_c) {
        Ok(a) => {
            state.write_register(instruction.op_a as u32, a);
            Ok(())
        },
        Err(e) => Err(e),
    }
}

/// Trap if two registers are equal.
pub fn execute_teq(state: &ExecutionState, instruction: &Instruction) -> (r: Result<
    (),
    ExecutionError,
>)
    requires
        state.wf(),
        names_registers(*instruction),
    ensures
        r == (if held(*state, instruction.op_a) == held(*state, instruction.op_b as u8) {
            Err::<(), _>(ExecutionError::ExceptionOrTrap())
        } else {
            Ok(())
        }),
{
    let src2: u32 = state.read_register((instruction.op_b as u8) as u32);
    let src1: u32 = state.read_register(instruction.op_a as u32);
    vm::teq(src1, src2)
}

/// The call that a program makes.
#[derive(Debug, Clone, Copy, PartialEq, Eq)]
pub struct SyscallRequest {
    /// The number of the call.
    pub id: u32,
    pub code: SyscallCode,
    pub arg1: u32,
    pub arg2: u32,
}

/// What a call came back with.
#[derive(Debug, Clone, Copy, PartialEq, Eq)]
pub struct SyscallReply {
    /// The value for `V0`, if it is not to keep the number of the call.
    pub value: Option<u32>,
    /// Where the program goes on after it entered or left unconstrained mode.
    pub next_pc: u32,
    /// The cycles that the call takes.
    pub extra_cycles: u32,
    /// The exit code, if the program halts.
    pub exit_code: u32,
}

/// How often a call was made.
pub open spec fn times_called(state: ExecutionState, code: SyscallCode) -> u64 {
    let key = code.counted_as().code() as u64;
    if state.syscall_counts@.contains_key(key) {
        state.syscall_counts@[key]
    } else {
        0
    }
}

/// The call in the registers.
pub open spec fn requested(state: ExecutionState) -> SyscallRequest {
    let id = held(state, Register::V0.number());
    SyscallRequest {
        id,
        code: SyscallCode::decode(id),
        arg1: held(state, Register::A0.number()),
        arg2: held(state, Register::A1.number()),
    }
}

/// Whether a call is refused. In unconstrained mode a program may only write and leave that mode.
pub open spec fn refused(code: SyscallCode, unconstrained: bool) -> bool {
    unconstrained && code != SyscallCode::EXIT_UNCONSTRAINED && code != SyscallCode::WRITE
}

/// Begin the syscall at `pc`: find out what is asked for, and count it.
pub fn enter_syscall(state: &mut ExecutionState, unconstrained: bool, pc: u32) -> (r: Result<
    SyscallRequest,
    ExecutionError,
>)
    requires
        old(state).wf(),
        times_called(*old(state), requested(*old(state)).code) < u64::MAX,
    ensures
        final(state).wf(),
        ({
            let request = requested(*old(state));
            if refused(request.code, unconstrained) {
                &&& r == Err::<SyscallRequest, _>(
                    ExecutionError::InvalidSyscallUsage(request.id as u64),
                )
                &&& *final(state) == (ExecutionState { pc, ..*old(state) })
            } else {
                &&& r == Ok::<_, ExecutionError>(request)
                &&& *final(state) == (ExecutionState {
                    pc,
                    syscall_counts: final(state).syscall_counts,
                    ..*old(state)
                })
                &&& final(state).syscall_counts@ == old(state).syscall_counts@.insert(
                    request.code.counted_as().code() as u64,
                    (times_called(*old(state), request.code) + 1) as u64,
                )
            }
        }),
{
    state.pc = pc;
    let id: u32 = state.read_register(Register::V0.index() as u32);
    let arg2: u32 = state.read_register(Register::A1.index() as u32);
    let arg1: u32 = state.read_register(Register::A0.index() as u32);
    let code: SyscallCode = SyscallCode::from_u32(id);
    if unconstrained && code != SyscallCode::EXIT_UNCONSTRAINED && code != SyscallCode::WRITE {
        return Err(ExecutionError::InvalidSyscallUsage(id as u64));
    }
    let key: u64 = code.count_map().id() as u64;
    let count: u64 = match state.syscall_counts.get(key) {
        Some(count) => count,
        None => 0,
    };
    state.syscall_counts.insert(key, count + 1);
    Ok(SyscallRequest { id, code, arg1, arg2 })
}

/// Whether a program has exited after a call.
pub open spec fn exits(state: ExecutionState, code: SyscallCode) -> bool {
    state.exited || code == SyscallCode::HALT
}

/// End a syscall. The answer is for the compiled code: zero when the program has exited, one when
/// it goes on behind the call, and else the address where it goes on.
pub fn leave_syscall(state: &mut ExecutionState, request: SyscallRequest, reply: SyscallReply) -> (r:
    Result<u32, ExecutionError>)
    requires
        old(state).wf(),
        old(state).clk + reply.extra_cycles + DEFAULT_CLK_INC <= u32::MAX,
        old(state).global_clk < u64::MAX,
    ensures
        final(state).wf(),
        ({
            let value = match reply.value {
                Some(v) => v,
                None => request.id,
            };
            let clk = old(state).clk + reply.extra_cycles;
            if request.code == SyscallCode::HALT && reply.exit_code != 0 {
                &&& r == Err::<u32, _>(ExecutionError::HaltWithNonZeroExitCode(reply.exit_code))
                &&& *final(state) == *old(state)
            } else if exits(*old(state), request.code) {
                &&& r == Ok::<u32, ExecutionError>(0u32)
                &&& *final(state) == (ExecutionState {
                    exited: true,
                    memory: final(state).memory,
                    clk: (clk + DEFAULT_CLK_INC) as u32,
                    global_clk: (old(state).global_clk + 1) as u64,
                    pc: 0,
                    ..*old(state)
                })
                &&& final(state).memory@ == old(state).memory@.insert(
                    (MIPS_REGISTER_SPACE, Register::V0.number() as u32),
                    value,
                )
            } else {
                &&& r == Ok::<_, ExecutionError>(
                    if request.code == SyscallCode::EXIT_UNCONSTRAINED || request.code
                        == SyscallCode::ENTER_UNCONSTRAINED {
                        reply.next_pc
                    } else {
                        1u32
                    },
                )
                &&& *final(state) == (ExecutionState {
                    memory: final(state).memory,
                    clk: clk as u32,
                    ..*old(state)
                })
                &&& final(state).memory@ == old(state).memory@.insert(
                    (MIPS_REGISTER_SPACE, Register::V0.number() as u32),
                    value,
                )
            }
        }),
{
    let value: u32 = match reply.value {
        Some(v) => v,
        None => request.id,
    };
    if request.code == SyscallCode::HALT && reply.exit_code != 0 {
        return Err(ExecutionError::HaltWithNonZeroExitCode(reply.exit_code));
    }
    if request.code == SyscallCode::HALT {
        state.exited = true;
    }
    state.write_register(Register::V0.index() as u32, value);
    state.clk = state.clk + reply.extra_cycles;
    if state.exited {
        state.clk = state.clk + DEFAULT_CLK_INC;
        state.global_clk = state.global_clk + 1;
        state.pc = 0;
        return Ok(0);
    }
    if request.code != SyscallCode::EXIT_UNCONSTRAINED && request.code
        != SyscallCode::ENTER_UNCONSTRAINED {
        Ok(1)
    } else {
        Ok(reply.next_pc)
    }
}

/// Whether the program has ended: it has exited, or its program counter lies outside the code.
pub open spec fn ended(state: ExecutionState, program: Program) -> bool {
    ||| state.pc == 0
    ||| state.exited
    ||| state.pc.wrapping_sub(program.pc_base) >= 4 * program.instructions@.len()
}

/// Whether the program has ended after a shard. It may not end in unconstrained mode.
pub fn shard_done(state: &ExecutionState, program: &Program, unconstrained: bool) -> (r: Result<
    bool,
    ExecutionError,
>)
    requires
        4 * program.instructions@.len() <= u32::MAX,
    ensures
        r == (if ended(*state, *program) && unconstrained {
            Err::<bool, _>(ExecutionError::EndInUnconstrained())
        } else {
            Ok(ended(*state, *program))
        }),
{
    let done: bool = state.pc == 0 || state.exited || state.pc.wrapping_sub(program.pc_base)
        >= program.instructions.len() as u32 * 4;
    if done && unconstrained {
        return Err(ExecutionError::EndInUnconstrained());
    }
    Ok(done)
}

/// What to do after a shard.
#[derive(Debug, Clone, Copy, PartialEq, Eq, Structural)]
pub enum BatchStep {
    /// The program has ended.
    Finish,
    /// The batch is full: hand out its checkpoint.
    Pause,
    /// Execute another shard.
    Continue,
}

/// What to do after the next shard of a batch, of which `executed` shards were executed before.
pub fn after_shard(done: bool, executed: u32, shard_batch_size: u32) -> (r: BatchStep)
    requires
        executed < u32::MAX,
    ensures
        r == (if done {
            BatchStep::Finish
        } else if executed + 1 >= shard_batch_size {
            BatchStep::Pause
        } else {
            BatchStep::Continue
        }),
{
    if done {
        BatchStep::Finish
    } else if executed + 1 >= shard_batch_size {
        BatchStep::Pause
    } else {
        BatchStep::Continue
    }
}

/// A program goes on exactly where it has not exited and its program counter lies on an instruction
/// other than one at address zero.
pub proof fn a_program_goes_on_within_its_code(state: ExecutionState, program: Program)
    requires
        program.wf(),
    ensures
        !ended(state, program) <==> {
            &&& !state.exited
            &&& state.pc != 0
            &&& program.pc_base <= state.pc < program.pc_base + 4 * program.instructions@.len()
        },
{
}

/// A multiply-accumulate instruction changes its destination and `HI` alone, and the two together
/// hold the old accumulator with the product added or taken away.
pub proof fn an_accumulation_changes_two_registers(
    before: ExecutionState,
    after: ExecutionState,
    i: Instruction,
    other: u8,
)
    requires
        accumulated(before, after, i),
        i.opcode is MADDU || i.opcode is MSUBU || i.opcode is MADD || i.opcode is MSUB,
        i.op_a != Register::HI.number(),
        other != i.op_a,
        other != Register::HI.number(),
    ensures
        held(after, other) == held(before, other),
        after.clk == before.clk && after.pc == before.pc && after.exited == before.exited,
        ({
            let b = held(before, i.op_b as u8);
            let c = held(before, i.op_c as u8);
            let was = held(before, 32) + held(before, 33) * 0x1_0000_0000;
            let now = held(after, i.op_a) + held(after, 33) * 0x1_0000_0000;
            let product = if i.opcode is MADDU || i.opcode is MSUBU {
                b * c
            } else {
                vm::signed(b) * vm::signed(c)
            };
            now == (if i.opcode is MADDU || i.opcode is MADD {
                was + product
            } else {
                was - product
            }) % 0x1_0000_0000_0000_0000
        }),
{
    arithmetic::accumulating_adds_the_product(
        held(before, i.op_b as u8),
        held(before, i.op_c as u8),
        held(before, 32),
        held(before, 33),
    );
}

} // verus!
