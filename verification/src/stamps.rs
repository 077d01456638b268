//! Laws of the times of register accesses, and of the events of registers that a run starts and
//! ends with.
use vstd::prelude::*;

use crate::errors::ExecutionError;
use crate::instruction::Instruction;
use crate::laws;
use crate::machine::Cpu;
use crate::minimal::executor::{self, Engine, RegisterAccess, Times};
use crate::minimal::runner;
use crate::opcode::OpClass;
use crate::precompiles::Precompile;
use crate::program::Program;
use crate::register::Register;
use crate::syscalls::SyscallCode;

verus! {

/// Every access of a list is one of a register that exists.
pub open spec fn in_file(list: Seq<RegisterAccess>) -> bool {
    forall|i: int| 0 <= i < list.len() ==> (#[trigger] list[i]).register < 36
}

/// The times of a whole register file.
pub open spec fn whole(t: Times) -> bool {
    t.stamps.len() == 36 && t.touched.len() == 36
}

proof fn lemma_accessed_all(t: Times, list: Seq<RegisterAccess>, clk: u64, n: nat, k: int)
    requires
        whole(t),
        in_file(list),
        n <= list.len(),
        clk + 4 <= u64::MAX,
        0 <= k < 36,
    ensures
        ({
            let after = t.accessed_all(list, clk, n);
            &&& whole(after)
            &&& after.saved == t.saved
            &&& after.stamps[k] == t.stamps[k] || clk <= after.stamps[k] <= clk + 4
            &&& t.touched[k] ==> after.touched[k]
            &&& (forall|i: int| 0 <= i < n ==> (#[trigger] list[i]).register != k) ==> after.stamps[k]
                == t.stamps[k] && after.touched[k] == t.touched[k]
        }),
    decreases n,
{
    if n > 0 {
        lemma_accessed_all(t, list, clk, (n - 1) as nat, k);
        assert(list[n - 1].register < 36);
    }
}

proof fn lemma_in_file(i: Instruction)
    requires
        i.wf(),
    ensures
        in_file(executor::register_accesses(i)),
{
}

/// The accesses of an instruction come after those of the instructions before it and before those
/// of the next: no register's time goes back, and none reaches the clock that the instruction
/// leaves.
pub proof fn times_never_go_back(e: Engine, i: Instruction, cpu: Cpu, k: int)
    requires
        i.wf(),
        i.opcode.class() != OpClass::Syscall,
        whole(e.times),
        e.times.stamps[k] < e.cpu.clk,
        e.cpu.clk + 5 <= u64::MAX,
        cpu.clk == e.cpu.clk,
        0 <= k < 36,
    ensures
        ({
            let after = e.retired(i, cpu);
            &&& e.times.stamps[k] <= after.times.stamps[k] < after.cpu.clk
            &&& e.times.touched[k] ==> after.times.touched[k]
            &&& whole(after.times)
        }),
{
    lemma_in_file(i);
    let list = executor::register_accesses(i);
    lemma_accessed_all(e.times, list, e.cpu.clk, list.len(), k);
}

/// An instruction stamps the registers that it names: its first operand or the two accumulator
/// registers last, then its second and its third operand, each a tick before. A register that it
/// does not name keeps its time.
pub proof fn an_instruction_stamps_its_registers(e: Engine, i: Instruction, cpu: Cpu, r: u8)
    requires
        i.wf(),
        i.opcode.class() != OpClass::Syscall,
        i.opcode.class() != OpClass::Unimplemented,
        !(i.opcode is MADD || i.opcode is MADDU || i.opcode is MSUB || i.opcode is MSUBU),
        whole(e.times),
        e.cpu.clk + 5 <= u64::MAX,
        r < 36,
    ensures
        ({
            let after = e.retired(i, cpu).times.stamps[r as int];
            let pair = i.opcode is MULT || i.opcode is MULTU || i.opcode is DIV || i.opcode is DIVU;
            let first = if pair {
                r == 32
            } else {
                r == i.op_a
            };
            if pair && r == 33 {
                after == e.cpu.clk + 4
            } else if first {
                after == e.cpu.clk + 3
            } else if i.b_is_register() && r == i.op_b as u8 {
                after == e.cpu.clk + 2
            } else if i.c_is_register() && r == i.op_c as u8 {
                after == e.cpu.clk + 1
            } else {
                after == e.times.stamps[r as int]
            }
        }),
{
    lemma_in_file(i);
    let list = executor::register_accesses(i);
    let t = e.times;
    let clk = e.cpu.clk;
    assert(list.len() <= 4);
    reveal_with_fuel(Times::accessed_all, 5);
}

/// A multiply-accumulate stamps its operands, the register that takes the low word and the high
/// accumulator register, in this order.
pub proof fn an_accumulation_stamps_its_registers(e: Engine, i: Instruction, cpu: Cpu, r: u8)
    requires
        i.wf(),
        i.opcode is MADD || i.opcode is MADDU || i.opcode is MSUB || i.opcode is MSUBU,
        whole(e.times),
        e.cpu.clk + 5 <= u64::MAX,
        r < 36,
    ensures
        ({
            let after = e.retired(i, cpu).times.stamps[r as int];
            if r == 33 {
                after == e.cpu.clk + 4
            } else if r == i.op_a {
                after == e.cpu.clk + 3
            } else if r == i.op_b as u8 {
                after == e.cpu.clk + 2
            } else if r == i.op_c as u8 {
                after == e.cpu.clk + 1
            } else {
                after == e.times.stamps[r as int]
            }
        }),
{
    reveal_with_fuel(Times::accessed_all, 7);
}

/// An instruction that fails before it is done has not written: the register that it would have
/// written keeps its time, unless it is an operand too, and the machine retires nothing.
pub proof fn a_failing_instruction_does_not_write(
    e: Engine,
    i: Instruction,
    cpu: Cpu,
    error: ExecutionError,
)
    requires
        i.wf(),
        error != ExecutionError::NullPointerReference(),
        i.opcode.class() == OpClass::Alu || i.opcode.class() == OpClass::Load,
        !(i.opcode is MULT || i.opcode is MULTU || i.opcode is DIV || i.opcode is DIVU),
        !(i.b_is_register() && i.op_b as u8 == i.op_a),
        !(i.c_is_register() && i.op_c as u8 == i.op_a),
        whole(e.times),
        e.cpu.clk + 5 <= u64::MAX,
    ensures
        e.failed(i, cpu, error).times.stamps[i.op_a as int] == e.times.stamps[i.op_a as int],
        e.failed(i, cpu, error).global_clk == e.global_clk,
        e.failed(i, cpu, error).cpu == cpu,
{
    let list = executor::register_accesses(i);
    let early = executor::early_accesses(e.cpu, i);
    assert(early == list.take(list.len() - 1));
    assert(early.len() <= 2);
    reveal_with_fuel(Times::accessed_all, 4);
}

/// Leaving an unconstrained block takes the times back to those at its start, but for the result
/// register, which is stamped at the time of the call that entered the block; and the count of
/// instructions goes on from there.
pub proof fn leaving_a_block_takes_the_times_back(e: Engine, i: Instruction, cpu: Cpu, k: int)
    requires
        i.opcode is SYSCALL,
        SyscallCode::decode(e.cpu.reg(Register::V0.number())) == SyscallCode::EXIT_UNCONSTRAINED,
        e.cpu.fork is Some,
        e.times.saved is Some,
        e.times.saved->Some_0.len() == 36,
        whole(e.times),
        e.cpu.clk + 5 <= u64::MAX,
        e.cpu.fork->Some_0.clk + 5 <= u64::MAX,
        0 <= k < 36,
    ensures
        ({
            let after = e.retired(i, cpu);
            &&& after.times.stamps[k] == if k == 2 {
                e.cpu.fork->Some_0.clk + 3
            } else {
                e.times.saved->Some_0[k] as int
            }
            &&& after.times.saved is None
            &&& after.global_clk == (e.saved_global_clk + 1) as u64
        }),
{
    reveal_with_fuel(Times::accessed_all, 5);
}

/// Entering an unconstrained block keeps the times of before, for the way back.
pub proof fn entering_a_block_keeps_the_times(e: Engine, i: Instruction, cpu: Cpu, k: int)
    requires
        i.opcode is SYSCALL,
        SyscallCode::decode(e.cpu.reg(Register::V0.number())) == SyscallCode::ENTER_UNCONSTRAINED,
        whole(e.times),
        e.cpu.clk + 5 <= u64::MAX,
        0 <= k < 36,
    ensures
        ({
            let after = e.retired(i, cpu);
            &&& after.times.saved matches Some(kept) && kept.len() == 36 && kept[k] == if k == 5 {
                e.cpu.clk + 1
            } else if k == 4 {
                e.cpu.clk + 2
            } else {
                e.times.stamps[k] as int
            }
            &&& after.saved_global_clk == e.global_clk
        }),
{
    reveal_with_fuel(Times::accessed_all, 5);
}

/// A system call stamps its two arguments and its result, the result last; apart from these it may
/// stamp the register of the error flag and the one of the heap, at its start.
pub proof fn a_call_stamps_its_registers(e: Engine, i: Instruction, cpu: Cpu, r: u8)
    requires
        i.opcode is SYSCALL,
        SyscallCode::decode(e.cpu.reg(2)) != SyscallCode::ENTER_UNCONSTRAINED,
        SyscallCode::decode(e.cpu.reg(2)) != SyscallCode::EXIT_UNCONSTRAINED,
        whole(e.times),
        e.cpu.clk + 5 <= u64::MAX,
        r < 36,
    ensures
        ({
            let after = e.retired(i, cpu).times.stamps[r as int];
            if r == 2 {
                after == e.cpu.clk + 3
            } else if r == 4 {
                after == e.cpu.clk + 2
            } else if r == 5 {
                after == e.cpu.clk + 1
            } else {
                after == e.times.stamps[r as int] || (r == 7 || r == 35) && after == e.cpu.clk
            }
        }),
{
    reveal_with_fuel(Times::accessed_all, 6);
}

/// A system call stamps every register that it changes.
pub proof fn a_call_stamps_what_it_changes(e: Engine, program: Program, i: Instruction, r: u8)
    requires
        i.opcode is SYSCALL,
        SyscallCode::decode(e.cpu.reg(2)) != SyscallCode::ENTER_UNCONSTRAINED,
        SyscallCode::decode(e.cpu.reg(2)) != SyscallCode::EXIT_UNCONSTRAINED,
        e.cpu.direct_operate(program, i).1 is Ok,
        laws::registers_ok(e.cpu),
        whole(e.times),
        e.cpu.clk + 5 <= u64::MAX,
        r < 36,
        e.cpu.direct_operate(program, i).0.regs[r as int] != e.cpu.regs[r as int],
    ensures
        ({
            let after = e.retired(i, e.cpu.direct_operate(program, i).0);
            e.cpu.clk <= after.times.stamps[r as int] < e.cpu.clk + 5 && after.times.touched[r as int]
        }),
{
    let start = Cpu { delay: false, ..e.cpu };
    let code = SyscallCode::decode(e.cpu.reg(2));
    let arg1 = e.cpu.reg(4);
    assert(e.cpu.direct_operate(program, i).0.regs == start.direct_syscall(program).0.regs
        && start.direct_syscall(program).1 is Ok) by {
        reveal(Cpu::direct_operate);
    }
    laws::lemma_dispatch_registers(start, program, code, arg1, e.cpu.reg(5));
    if r != 2 {
        lemma_call_changes(start, program, code, arg1, e.cpu.reg(5), r);
    }
    reveal_with_fuel(Times::accessed_all, 6);
}

/// The registers that a system call changes besides its result.
proof fn lemma_call_changes(
    c: Cpu,
    program: Program,
    code: SyscallCode,
    arg1: u32,
    arg2: u32,
    r: u8,
)
    requires
        code != SyscallCode::ENTER_UNCONSTRAINED,
        code != SyscallCode::EXIT_UNCONSTRAINED,
        laws::registers_ok(c),
        r < 36,
        c.dispatch(program, code, arg1, arg2).1 is Ok,
        c.dispatch(program, code, arg1, arg2).0.regs[r as int] != c.regs[r as int],
    ensures
        exists|k: int|
            0 <= k < executor::call_accesses(code, arg1).len() && (
            #[trigger] executor::call_accesses(code, arg1)[k]).register == r
                && executor::call_accesses(code, arg1)[k].position is Some,
{
    let op = match Precompile::of(code) {
        Some(op) => op,
        None => Precompile::EdAdd,
    };
    laws::lemma_memory_calls_keep_registers(c, op, arg1, arg2);
    reveal(Cpu::sys_write);
    reveal(Cpu::dispatch);
    let list = executor::call_accesses(code, arg1);
    assert(r == 7 || r == 35);
    if r == 7 {
        assert(list[list.len() - 1].register == r);
    } else {
        assert(list[0].register == r);
    }
}

/// A run ends each register that it accessed, and the first one in any case, with what the register
/// holds and the time of its last access.
pub proof fn a_register_ends_with_what_it_holds(e: Engine, n: nat, k: u32)
    requires
        n <= 36,
        k < n,
    ensures
        forall|j: int|
            0 <= j < runner::register_ends(e, n).len() && (#[trigger] runner::register_ends(
                e,
                n,
            )[j]).addr == k && e.times.touched[k as int] ==> runner::register_ends(e, n)[j].value
                == e.cpu.regs[k as int] && runner::register_ends(e, n)[j].timestamp
                == e.times.stamps[k as int],
        (exists|j: int|
            0 <= j < runner::register_ends(e, n).len() && (#[trigger] runner::register_ends(
                e,
                n,
            )[j]).addr == k) <==> k == 0 || e.times.touched[k as int],
    decreases n,
{
    let all = runner::register_ends(e, n);
    let before = runner::register_ends(e, (n - 1) as nat);
    lemma_ends_below(e, (n - 1) as nat);
    if k < n - 1 {
        a_register_ends_with_what_it_holds(e, (n - 1) as nat, k);
        assert forall|j: int| 0 <= j < before.len() implies #[trigger] all[j] == before[j] by {}
        assert forall|j: int|
            0 <= j < all.len() && (#[trigger] all[j]).addr == k && e.times.touched[k as int] implies all[j].value
            == e.cpu.regs[k as int] && all[j].timestamp == e.times.stamps[k as int] by {
            assert(j < before.len());
            assert(before[j].addr == k);
        }
        if exists|j: int| 0 <= j < before.len() && (#[trigger] before[j]).addr == k {
            let j = choose|j: int| 0 <= j < before.len() && (#[trigger] before[j]).addr == k;
            assert(all[j].addr == k);
        }
        if exists|j: int| 0 <= j < all.len() && (#[trigger] all[j]).addr == k {
            let j = choose|j: int| 0 <= j < all.len() && (#[trigger] all[j]).addr == k;
            assert(j < before.len());
            assert(before[j].addr == k);
        }
    } else {
        assert forall|j: int| 0 <= j < all.len() && (#[trigger] all[j]).addr == k implies j
            == before.len() by {
            if j < before.len() {
                assert(all[j] == before[j]);
            }
        }
        if k == 0 || e.times.touched[k as int] {
            assert(all[before.len() as int].addr == k);
        }
    }
}

proof fn lemma_ends_below(e: Engine, n: nat)
    requires
        n <= 36,
    ensures
        forall|j: int|
            0 <= j < runner::register_ends(e, n).len() ==> (#[trigger] runner::register_ends(
                e,
                n,
            )[j]).addr < n,
    decreases n,
{
    if n > 0 {
        lemma_ends_below(e, (n - 1) as nat);
        let all = runner::register_ends(e, n);
        let before = runner::register_ends(e, (n - 1) as nat);
        assert forall|j: int| 0 <= j < all.len() implies (#[trigger] all[j]).addr < n by {
            if j < before.len() {
                assert(all[j] == before[j]);
            }
        }
    }
}

/// A run starts each register with zero that it accessed and that its image does not hold, and the
/// first one in any case, where no hint was placed on the words that have the registers' addresses.
/// Registers of the image have no start.
pub proof fn a_register_starts_with_zero(e: Engine, program: Program, n: nat, j: int)
    requires
        n <= 36,
        0 <= j < runner::register_starts(e, program, n).len(),
        forall|k: int|
            0 <= k < 9 ==> !(#[trigger] e.cpu.bus->Live_0.seeds.contains_key(k)),
    ensures
        ({
            let event = runner::register_starts(e, program, n)[j];
            &&& event.value == 0
            &&& event.timestamp == 0
            &&& event.addr < n
            &&& event.addr == 0 || e.times.touched[event.addr as int] && !program.image@.contains_key(
                event.addr,
            )
        }),
    decreases n,
{
    if n > 0 {
        let before = runner::register_starts(e, program, (n - 1) as nat);
        if j < before.len() {
            a_register_starts_with_zero(e, program, (n - 1) as nat, j);
        } else {
            let addr = (n - 1) as u32;
            assert(0 <= addr as int / 4 < 9);
        }
    }
}

/// Every register that a run accessed and that its image does not hold has a start.
pub proof fn every_accessed_register_has_a_start(e: Engine, program: Program, n: nat, k: u32)
    requires
        k < n <= 36,
        k == 0 || e.times.touched[k as int] && !program.image@.contains_key(k),
    ensures
        exists|j: int|
            0 <= j < runner::register_starts(e, program, n).len() && (
            #[trigger] runner::register_starts(e, program, n)[j]).addr == k,
    decreases n,
{
    let all = runner::register_starts(e, program, n);
    let before = runner::register_starts(e, program, (n - 1) as nat);
    if k < n - 1 {
        every_accessed_register_has_a_start(e, program, (n - 1) as nat, k);
        let j = choose|j: int| 0 <= j < before.len() && (#[trigger] before[j]).addr == k;
        assert(all[j] == before[j]);
    } else {
        assert(all[before.len() as int].addr == k);
    }
}

} // verus!
