//! Laws of the machine that hold for every program.
use vstd::prelude::*;

use crate::events::MemoryRecord;
use crate::instruction::Instruction;
use crate::machine::{Bus, Cpu, Fork};
use crate::precompiles::Precompile;
use crate::program::Program;
use crate::register::Register;
use crate::syscalls::SyscallCode;

verus! {

/// Outside a delay slot control is in line: the second program counter is one instruction behind
/// the first. A chunk or shard that starts there needs to keep the first one only.
pub proof fn no_delay_slot_means_in_line(c: Cpu, program: Program, max_syscall_cycles: u32)
    requires
        c.step(program, max_syscall_cycles).1 is Ok,
        !c.step(program, max_syscall_cycles).0.delay,
    ensures
        c.step(program, max_syscall_cycles).0.next_pc == c.step(
            program,
            max_syscall_cycles,
        ).0.pc.wrapping_add(4),
{
    reveal(Cpu::operate);
}

/// The register file has its size and its first register is zero, here and at the fork.
pub open spec fn registers_ok(c: Cpu) -> bool {
    &&& c.regs.len() == 36
    &&& c.regs[0] == 0
    &&& c.fork matches Some(f) ==> f.regs.len() == 36 && f.regs[0] == 0
}

/// Two machines have the same registers, here and at the fork.
pub open spec fn same_registers(d: Cpu, c: Cpu) -> bool {
    d.regs == c.regs && d.fork == c.fork
}

pub proof fn lemma_memory_calls_keep_registers(c: Cpu, op: Precompile, arg1: u32, arg2: u32)
    ensures
        same_registers(c.write_call(arg1, arg2).0, c),
        same_registers(c.hint_len_call().0, c),
        same_registers(c.sha_compress(arg1, arg2).0, c),
        same_registers(c.sha_extend(arg1).0, c),
        same_registers(c.keccak_sponge(arg1, arg2).0, c),
        same_registers(c.modular_call(arg1, arg2).0, c),
        same_registers(c.wide_call(arg1, arg2).0, c),
        same_registers(c.binary_call(op, arg1, arg2).0, c),
        same_registers(c.unary_call(op, arg1).0, c),
        same_registers(c.decompress_call(op, arg1, arg2).0, c),
{
    assert(same_registers(c.write_call(arg1, arg2).0, c)) by {
        reveal(Cpu::write_call);
    }
    assert(same_registers(c.hint_len_call().0, c)) by {
        reveal(Cpu::hint_len_call);
    }
    assert(same_registers(c.sha_compress(arg1, arg2).0, c)) by {
        reveal(Cpu::sha_compress);
    }
    assert(same_registers(c.sha_extend(arg1).0, c)) by {
        reveal(Cpu::sha_extend);
    }
    assert(same_registers(c.keccak_sponge(arg1, arg2).0, c)) by {
        reveal(Cpu::keccak_sponge);
    }
    assert(same_registers(c.modular_call(arg1, arg2).0, c)) by {
        reveal(Cpu::modular_call);
    }
    assert(same_registers(c.wide_call(arg1, arg2).0, c)) by {
        reveal(Cpu::wide_call);
    }
    assert(same_registers(c.binary_call(op, arg1, arg2).0, c)) by {
        reveal(Cpu::binary_call);
    }
    assert(same_registers(c.unary_call(op, arg1).0, c)) by {
        reveal(Cpu::unary_call);
    }
    assert(same_registers(c.decompress_call(op, arg1, arg2).0, c)) by {
        reveal(Cpu::decompress_call);
    }
}

/// No system call changes the size of the register file or its first register.
pub proof fn lemma_dispatch_registers(c: Cpu, program: Program, code: SyscallCode, arg1: u32, arg2: u32)
    requires
        registers_ok(c),
    ensures
        registers_ok(c.dispatch(program, code, arg1, arg2).0),
{
    let op = match Precompile::of(code) {
        Some(op) => op,
        None => Precompile::EdAdd,
    };
    lemma_memory_calls_keep_registers(c, op, arg1, arg2);
    assert(registers_ok(c.sys_write(arg1, arg2).0)) by {
        reveal(Cpu::sys_write);
    }
    assert(registers_ok(c.brk_call(program, arg1).0));
    assert(registers_ok(c.mmap_call(arg1, arg2).0));
    reveal(Cpu::dispatch);
}

proof fn lemma_operate_registers(c: Cpu, program: Program, i: Instruction)
    requires
        registers_ok(c),
        i.wf(),
    ensures
        registers_ok(c.operate(program, i).0),
{
    let start = Cpu { delay: false, ..c };
    assert(registers_ok(start.alu(i).0));
    assert(registers_ok(start.load(i).0));
    assert(registers_ok(start.store(i).0));
    assert(i.opcode.class() is Misc ==> registers_ok(start.misc(i).0));
    assert(registers_ok(start.mov_cond(i)));
    let code = SyscallCode::decode(start.reg(Register::V0.number()));
    lemma_dispatch_registers(
        start.counted(code),
        program,
        code,
        start.reg(Register::A0.number()),
        start.reg(Register::A1.number()),
    );
    assert(registers_ok(start.syscall(program).0));
    reveal(Cpu::operate);
}

/// The first register is zero whatever instructions write to it.
pub proof fn zero_register_stays_zero(c: Cpu, program: Program, max_syscall_cycles: u32)
    requires
        registers_ok(c),
        program.wf(),
        program.contains_pc(c.pc),
    ensures
        registers_ok(c.step(program, max_syscall_cycles).0),
{
    let i = program.at(c.pc);
    assert(i == program.instructions@[(c.pc.wrapping_sub(program.pc_base) / 4) as int]);
    assert(i.wf());
    let start = Cpu { clk: crate::vm::bumped_clk(c.clk, max_syscall_cycles) as u64, ..c };
    lemma_operate_registers(start, program, i);
}

/// The machine is about to map memory, at the address in the first argument register.
pub open spec fn about_to_map(c: Cpu, program: Program) -> bool {
    let code = SyscallCode::decode(c.reg(Register::V0.number()));
    &&& c.regs.len() == 36
    &&& program.at(c.pc).opcode is SYSCALL
    &&& code == SyscallCode::SYS_MMAP || code == SyscallCode::SYS_MMAP2
}

/// A mapping at no given address is the heap's start, and the heap goes on behind the mapping:
/// at least its length further, and by whole pages. A length that does not fit the address range
/// in whole pages is refused.
pub proof fn a_mapping_is_taken_off_the_heap(c: Cpu, program: Program, max_syscall_cycles: u32)
    requires
        about_to_map(c, program),
        c.reg(Register::A0.number()) == 0,
        c.step(program, max_syscall_cycles).1 is Ok,
    ensures
        ({
            let d = c.step(program, max_syscall_cycles).0;
            let len = c.reg(Register::A1.number());
            let start = d.reg(Register::V0.number());
            let heap = d.reg(Register::HEAP.number());
            &&& start == c.reg(Register::HEAP.number())
            &&& d.reg(Register::A3.number()) == 0
            &&& len <= 0xffff_f000
            &&& start + len + 0xfff <= 0xffff_ffff ==> {
                &&& start + len <= heap < start + len + 0x1000
                &&& (heap - start) % 0x1000 == 0
            }
        }),
{
    reveal(Cpu::operate);
    reveal(Cpu::dispatch);
}

/// Two mappings at no given address do not overlap: if nothing else moves the heap between them,
/// the second starts at least the length of the first behind it, at a distance of whole pages,
/// unless the address range wraps around.
pub proof fn mappings_do_not_overlap(c: Cpu, d: Cpu, program: Program, max_syscall_cycles: u32)
    requires
        about_to_map(c, program),
        about_to_map(d, program),
        c.reg(Register::A0.number()) == 0,
        d.reg(Register::A0.number()) == 0,
        c.step(program, max_syscall_cycles).1 is Ok,
        d.step(program, max_syscall_cycles).1 is Ok,
        d.reg(Register::HEAP.number()) == c.step(program, max_syscall_cycles).0.reg(
            Register::HEAP.number(),
        ),
        c.reg(Register::HEAP.number()) + c.reg(Register::A1.number()) + 0xfff <= 0xffff_ffff,
    ensures
        ({
            let first = c.step(program, max_syscall_cycles).0.reg(Register::V0.number());
            let second = d.step(program, max_syscall_cycles).0.reg(Register::V0.number());
            &&& first + c.reg(Register::A1.number()) <= second
            &&& (second - first) % 0x1000 == 0
        }),
{
    a_mapping_is_taken_off_the_heap(c, program, max_syscall_cycles);
    a_mapping_is_taken_off_the_heap(d, program, max_syscall_cycles);
}

/// A mapping at a given address is that address, and leaves the heap alone.
pub proof fn a_mapping_at_an_address_is_there(c: Cpu, program: Program, max_syscall_cycles: u32)
    requires
        about_to_map(c, program),
        c.reg(Register::A0.number()) != 0,
        c.step(program, max_syscall_cycles).1 is Ok,
    ensures
        ({
            let d = c.step(program, max_syscall_cycles).0;
            &&& d.reg(Register::V0.number()) == c.reg(Register::A0.number())
            &&& d.reg(Register::A3.number()) == 0
            &&& d.reg(Register::HEAP.number()) == c.reg(Register::HEAP.number())
        }),
{
    reveal(Cpu::operate);
    reveal(Cpu::dispatch);
}

/// The machine is inside an unconstrained block that was entered in a given state.
pub open spec fn in_block(c: Cpu, fork: Fork, mem: Map<int, MemoryRecord>) -> bool {
    &&& c.fork == Some(fork)
    &&& c.bus matches Bus::Live(ram) && ram.mem.saved == Some(mem)
}

/// Entering an unconstrained block remembers the registers, the clock and the memory.
pub proof fn entering_a_block_remembers(c: Cpu, mem: Map<int, MemoryRecord>)
    requires
        c.bus matches Bus::Live(ram) && ram.mem.saved is None && ram.mem.seen == mem,
    ensures
        in_block(
            c.enter_call().0,
            Fork { pc: c.pc, clk: c.clk, regs: c.regs },
            mem,
        ),
{
}

/// Writing consecutive words, or looking at bytes, keeps the fork point.
proof fn lemma_look_keeps_the_fork(bus: Bus, ptr: u32, n: nat)
    requires
        bus is Live,
    ensures
        bus.look_bytes(ptr, n).0 is Live,
        bus.look_bytes(ptr, n).0->Live_0.mem.saved == bus->Live_0.mem.saved,
    decreases n,
{
    if n > 0 {
        lemma_look_keeps_the_fork(bus, ptr, (n - 1) as nat);
    }
}

/// An instruction inside an unconstrained block either stays inside, with the same way back, or
/// leaves it. Leaving it restores the registers except the result register, the clock except the
/// cost of the instruction itself, and the whole memory, and goes on behind the call that entered
/// the block.
pub proof fn leaving_a_block_undoes_it(
    c: Cpu,
    fork: Fork,
    mem: Map<int, MemoryRecord>,
    program: Program,
    max_syscall_cycles: u32,
)
    requires
        in_block(c, fork, mem),
        c.step(program, max_syscall_cycles).1 is Ok,
    ensures
        ({
            let d = c.step(program, max_syscall_cycles).0;
            ||| in_block(d, fork, mem)
            ||| {
                &&& d.fork is None
                &&& d.regs == fork.regs.update(Register::V0.number() as int, 0)
                &&& d.clk == (fork.clk + 5) as u64
                &&& d.pc == fork.pc.wrapping_add(4)
                &&& d.bus matches Bus::Live(ram) && ram.mem.seen == mem && ram.mem.saved is None
            }
        }),
{
    reveal(Cpu::operate);
    reveal(Cpu::dispatch);
    reveal(Cpu::write_call);
    let start = Cpu {
        clk: crate::vm::bumped_clk(c.clk, max_syscall_cycles) as u64,
        delay: false,
        ..c
    };
    lemma_look_keeps_the_fork(
        start.bus,
        start.reg(Register::A1.number()),
        start.reg(Register::A2.number()) as nat,
    );
}

} // verus!
