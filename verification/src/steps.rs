//! Laws of a single instruction: what it may change and what it leaves alone, how control goes on
//! and what it costs.
use vstd::prelude::*;

use crate::agreement;
use crate::errors::ExecutionError;
use crate::events::MemValue;
use crate::laws;
use crate::machine::{Cpu, Effect};
use crate::memory;
use crate::opcode::{OpClass, Opcode};
use crate::precompiles::Precompile;
use crate::program::Program;
use crate::register::Register;
use crate::syscalls::SyscallCode;
use crate::vm;

verus! {

/// Whether an instruction may write a register, system calls apart.
pub open spec fn writes(opcode: Opcode, op_a: u8, r: u8) -> bool {
    match opcode.class() {
        OpClass::Alu => if opcode is MULT || opcode is MULTU || opcode is DIV || opcode is DIVU {
            r == 32 || r == 33
        } else {
            r == op_a
        },
        OpClass::Load | OpClass::MovCond | OpClass::Jump => r == op_a,
        OpClass::Store => opcode is SC && r == op_a,
        OpClass::Misc => match opcode {
            Opcode::TEQ => false,
            Opcode::MADD | Opcode::MADDU | Opcode::MSUB | Opcode::MSUBU => r == op_a || r == 33,
            _ => r == op_a,
        },
        _ => false,
    }
}

/// An instruction that is no system call leaves every register alone that is not its destination;
/// the products and quotients of two words go to the two accumulator registers instead.
pub proof fn an_instruction_changes_its_own_registers(
    c: Cpu,
    program: Program,
    max_syscall_cycles: u32,
    r: u8,
)
    requires
        agreement::retires(c, program, max_syscall_cycles),
        !(program.at(c.pc).opcode is SYSCALL),
        r < 36,
        !writes(program.at(c.pc).opcode, program.at(c.pc).op_a, r),
    ensures
        c.step(program, max_syscall_cycles).0.reg(r) == c.reg(r),
        c.step(program, max_syscall_cycles).0.fork == c.fork,
        c.step(program, max_syscall_cycles).0.output == c.output,
        c.step(program, max_syscall_cycles).0.exited == c.exited,
{
    let i = program.at(c.pc);
    assert(i == program.instructions@[(c.pc.wrapping_sub(program.pc_base) / 4) as int]);
    reveal(Cpu::operate);
}

/// Control goes on in line behind an ordinary instruction. Behind a branch or jump the instruction
/// in line comes first, as its delay slot, and only then the one that the branch or jump goes to.
pub proof fn control_goes_on_in_line(c: Cpu, program: Program, max_syscall_cycles: u32)
    requires
        agreement::retires(c, program, max_syscall_cycles),
        !(program.at(c.pc).opcode is SYSCALL),
    ensures
        ({
            let d = c.step(program, max_syscall_cycles).0;
            let class = program.at(c.pc).opcode.class();
            &&& d.pc == c.next_pc
            &&& d.next_pc != 0
            &&& d.delay == (class == OpClass::Branch || class == OpClass::Jump)
            &&& !d.delay ==> d.next_pc == vm::word(c.next_pc + 4)
        }),
{
    reveal(Cpu::operate);
}

/// Only loads, stores and system calls touch memory.
pub proof fn other_instructions_leave_memory_alone(c: Cpu, program: Program, max_syscall_cycles: u32)
    requires
        agreement::retires(c, program, max_syscall_cycles),
        !(program.at(c.pc).opcode is SYSCALL),
        program.at(c.pc).opcode.class() != OpClass::Load,
        program.at(c.pc).opcode.class() != OpClass::Store,
    ensures
        c.step(program, max_syscall_cycles).0.bus == c.bus,
{
    reveal(Cpu::operate);
}

/// A load or store is one access of the word that its address belongs to, at the time of the
/// instruction, and logs what the word held. A store leaves what its opcode makes of the word and
/// the register; a load leaves the word's value. Every other word stays.
pub proof fn a_load_or_store_is_one_access(
    c: Cpu,
    program: Program,
    max_syscall_cycles: u32,
    other: u32,
)
    requires
        agreement::retires(c, program, max_syscall_cycles),
        c.bus is Live,
        program.at(c.pc).opcode.class() == OpClass::Load || program.at(c.pc).opcode.class()
            == OpClass::Store,
    ensures
        ({
            let d = c.step(program, max_syscall_cycles).0;
            let i = program.at(c.pc);
            let addr = vm::word(c.reg(i.op_b as u8) + i.op_c);
            let held = c.bus.entry(addr);
            let clk = vm::bumped_clk(c.clk, max_syscall_cycles) as u64;
            &&& addr <= crate::consts::MAX_MEMORY
            &&& d.bus is Live
            &&& d.bus->Live_0.log == c.bus->Live_0.log.push(held)
            &&& d.bus.entry(addr) == (MemValue {
                clk,
                value: if i.opcode.class() == OpClass::Store {
                    vm::stored(i.opcode, addr, held.value, c.reg(i.op_a))
                } else {
                    held.value
                },
            })
            &&& addr / 4 != other / 4 ==> d.bus.entry(other) == c.bus.entry(other)
        }),
{
    reveal(Cpu::operate);
    let i = program.at(c.pc);
    let addr = vm::word(c.reg(i.op_b as u8) + i.op_c);
    let aligned = (addr - addr % 4) as u32;
    assert(memory::slot(aligned) == memory::slot(addr));
    assert(c.address(i) == addr);
}

/// An instruction retires once and costs five ticks of the clock, to which a system call adds its
/// own, at most 48. Outside unconstrained blocks its opcode is counted.
pub proof fn an_instruction_costs_five_ticks(
    c: Cpu,
    program: Program,
    max_syscall_cycles: u32,
    opcode: Opcode,
)
    requires
        agreement::retires(c, program, max_syscall_cycles),
        c.fork is None,
        c.opcodes.len() == crate::opcode::NUM_OPCODES,
    ensures
        ({
            let d = c.step(program, max_syscall_cycles).0;
            let start = vm::bumped_clk(c.clk, max_syscall_cycles);
            let own = program.at(c.pc).opcode;
            &&& d.retired == c.retired + 1
            &&& !(own is SYSCALL) ==> d.clk == start + 5
            &&& start + 5 <= d.clk <= start + 5 + 48
            &&& d.opcodes[opcode.ordinal() as int] == if opcode == own {
                c.opcodes[opcode.ordinal() as int].wrapping_add(1)
            } else {
                c.opcodes[opcode.ordinal() as int]
            }
        }),
{
    reveal(Cpu::operate);
    let start = Cpu {
        clk: vm::bumped_clk(c.clk, max_syscall_cycles) as u64,
        delay: false,
        ..c
    };
    let code = SyscallCode::decode(start.reg(Register::V0.number()));
    let arg1 = start.reg(Register::A0.number());
    let arg2 = start.reg(Register::A1.number());
    lemma_call_keeps_counts(start.counted(code), program, code, arg1, arg2);
    lemma_call_cost(start.counted(code), program, code, arg1, arg2);
    if opcode != program.at(c.pc).opcode && opcode.ordinal() == program.at(c.pc).opcode.ordinal() {
        crate::opcode::opcode_ordinals_are_distinct(opcode, program.at(c.pc).opcode);
    }
}

/// Two machines have counted the same.
pub open spec fn same_counts(c: Cpu, d: Cpu) -> bool {
    d.opcodes == c.opcodes && d.retired == c.retired && d.syscalls == c.syscalls
}

proof fn lemma_call_keeps_counts(c: Cpu, program: Program, code: SyscallCode, arg1: u32, arg2: u32)
    ensures
        same_counts(c, c.dispatch(program, code, arg1, arg2).0),
{
    let op = match Precompile::of(code) {
        Some(op) => op,
        None => Precompile::EdAdd,
    };
    assert(same_counts(c, c.write_call(arg1, arg2).0)) by {
        reveal(Cpu::write_call);
    }
    assert(same_counts(c, c.sys_write(arg1, arg2).0)) by {
        reveal(Cpu::sys_write);
    }
    assert(same_counts(c, c.hint_len_call().0)) by {
        reveal(Cpu::hint_len_call);
    }
    assert(same_counts(c, c.sha_compress(arg1, arg2).0)) by {
        reveal(Cpu::sha_compress);
    }
    assert(same_counts(c, c.sha_extend(arg1).0)) by {
        reveal(Cpu::sha_extend);
    }
    assert(same_counts(c, c.keccak_sponge(arg1, arg2).0)) by {
        reveal(Cpu::keccak_sponge);
    }
    assert(same_counts(c, c.modular_call(arg1, arg2).0)) by {
        reveal(Cpu::modular_call);
    }
    assert(same_counts(c, c.wide_call(arg1, arg2).0)) by {
        reveal(Cpu::wide_call);
    }
    assert(same_counts(c, c.binary_call(op, arg1, arg2).0)) by {
        reveal(Cpu::binary_call);
    }
    assert(same_counts(c, c.unary_call(op, arg1).0)) by {
        reveal(Cpu::unary_call);
    }
    assert(same_counts(c, c.decompress_call(op, arg1, arg2).0)) by {
        reveal(Cpu::decompress_call);
    }
    assert(same_counts(c, c.brk_call(program, arg1).0));
    assert(same_counts(c, c.mmap_call(arg1, arg2).0));
    reveal(Cpu::dispatch);
}

/// What a call takes beyond the cost of an instruction is within a bound.
pub open spec fn costs_at_most(c: Cpu, done: (Cpu, Result<Effect, ExecutionError>), most: int) -> bool {
    done.1 matches Ok(effect) ==> c.clk <= done.0.clk && done.0.clk + effect.extra <= c.clk + most
}

proof fn lemma_call_cost(c: Cpu, program: Program, code: SyscallCode, arg1: u32, arg2: u32)
    requires
        c.clk + 53 <= u64::MAX,
        c.fork is None,
    ensures
        costs_at_most(c, c.dispatch(program, code, arg1, arg2), 48),
{
    let op = match Precompile::of(code) {
        Some(op) => op,
        None => Precompile::EdAdd,
    };
    assert(costs_at_most(c, c.write_call(arg1, arg2), 48)) by {
        reveal(Cpu::write_call);
    }
    assert(costs_at_most(c, c.sys_write(arg1, arg2), 48)) by {
        reveal(Cpu::sys_write);
    }
    assert(costs_at_most(c, c.hint_len_call(), 48)) by {
        reveal(Cpu::hint_len_call);
    }
    assert(costs_at_most(c, c.sha_compress(arg1, arg2), 48)) by {
        reveal(Cpu::sha_compress);
    }
    assert(costs_at_most(c, c.sha_extend(arg1), 48)) by {
        reveal(Cpu::sha_extend);
    }
    assert(costs_at_most(c, c.keccak_sponge(arg1, arg2), 48)) by {
        reveal(Cpu::keccak_sponge);
    }
    assert(costs_at_most(c, c.modular_call(arg1, arg2), 48)) by {
        reveal(Cpu::modular_call);
    }
    assert(costs_at_most(c, c.wide_call(arg1, arg2), 48)) by {
        reveal(Cpu::wide_call);
    }
    assert(costs_at_most(c, c.binary_call(op, arg1, arg2), 48)) by {
        reveal(Cpu::binary_call);
    }
    assert(costs_at_most(c, c.unary_call(op, arg1), 48)) by {
        reveal(Cpu::unary_call);
    }
    assert(costs_at_most(c, c.decompress_call(op, arg1, arg2), 48)) by {
        reveal(Cpu::decompress_call);
    }
    assert(costs_at_most(c, c.brk_call(program, arg1), 48));
    assert(costs_at_most(c, c.mmap_call(arg1, arg2), 48));
    reveal(Cpu::dispatch);
}

/// A system call leaves its result in the result register, or its own number where it has none, and
/// goes on where it says; its cycles come on top of those of the instruction. Inside an
/// unconstrained block no call but a write and the end of the block is made.
pub proof fn a_call_leaves_its_result(c: Cpu, program: Program, max_syscall_cycles: u32)
    requires
        agreement::retires(c, program, max_syscall_cycles),
        program.at(c.pc).opcode is SYSCALL,
    ensures
        ({
            let d = c.step(program, max_syscall_cycles).0;
            let id = c.reg(2);
            let code = SyscallCode::decode(id);
            let start = Cpu {
                clk: vm::bumped_clk(c.clk, max_syscall_cycles) as u64,
                delay: false,
                ..c
            };
            let (e, r) = start.counted(code).dispatch(program, code, c.reg(4), c.reg(5));
            &&& r matches Ok(effect) && {
                &&& d.reg(2) == match effect.result {
                    Some(v) => v,
                    None => id,
                }
                &&& d.pc == effect.next_pc
                &&& d.next_pc == vm::word(effect.next_pc + 4)
                &&& d.clk == ((e.clk + effect.extra) as u64 + 5) as u64
                &&& d.bus == e.bus
                &&& d.output == e.output
                &&& forall|k: int| 0 <= k < 36 && k != 2 ==> #[trigger] d.regs[k] == e.regs[k]
            }
            &&& c.fork is Some ==> code == SyscallCode::WRITE || code
                == SyscallCode::EXIT_UNCONSTRAINED
        }),
{
    let code = SyscallCode::decode(c.reg(2));
    let start = Cpu {
        clk: vm::bumped_clk(c.clk, max_syscall_cycles) as u64,
        delay: false,
        ..c
    };
    laws::lemma_dispatch_registers(start.counted(code), program, code, c.reg(4), c.reg(5));
    reveal(Cpu::operate);
}

/// A call that only answers returns behind itself with its answer and no error, and changes nothing
/// else: the calls of an operating system that is not there.
pub proof fn calls_without_a_system_only_answer(
    c: Cpu,
    program: Program,
    code: SyscallCode,
    arg1: u32,
    arg2: u32,
)
    requires
        c.regs.len() == 36,
        code == SyscallCode::SYS_OPEN || code == SyscallCode::SYS_CLOSE || code
            == SyscallCode::SYS_MUNMAP || code == SyscallCode::SYS_GETTID || code
            == SyscallCode::SYS_CLONE || code == SyscallCode::SYS_READ || code
            == SyscallCode::SYS_FCNTL,
    ensures
        ({
            let (d, r) = c.dispatch(program, code, arg1, arg2);
            let known = code == SyscallCode::SYS_READ && arg1 == 0 || code == SyscallCode::SYS_FCNTL
                && arg2 == 3 && arg1 <= 2 || code != SyscallCode::SYS_READ && code
                != SyscallCode::SYS_FCNTL;
            &&& d == (Cpu { regs: d.regs, ..c })
            &&& forall|k: int| 0 <= k < 36 && k != 7 ==> #[trigger] d.regs[k] == c.regs[k]
            &&& r matches Ok(effect) && effect.next_pc == vm::word(c.pc + 4) && effect.extra == 0
                && if known {
                d.reg(7) == 0 && effect.result == Some(
                    if code == SyscallCode::SYS_CLONE || code == SyscallCode::SYS_FCNTL && arg1 > 0 {
                        1u32
                    } else {
                        0u32
                    },
                )
            } else {
                d.reg(7) == 9 && effect.result == Some(0xffff_ffffu32)
            }
        }),
{
    reveal(Cpu::dispatch);
}

} // verus!
