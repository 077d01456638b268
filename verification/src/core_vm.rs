//! The interpreter: executes instructions over a source of memory values.
use std::sync::Arc;

use vstd::prelude::*;

use crate::consts::MAX_MEMORY;
use crate::errors::ExecutionError;
use crate::instruction::Instruction;
use crate::keccak::{self, keccak_sponge};
use crate::machine::{self, Bus, Cpu, Effect, Fork, ADDRESS_END, CLOCK_LIMIT};
use crate::memory::is_addressable;
use crate::opcode::{OpClass, Opcode, NUM_OPCODES};
use crate::precompiles::{u256xu2048_mul, uint256_mul, Precompile, Shape};
use crate::program::Program;
use crate::register::{Register, NUM_REGISTERS};
use crate::sha256::{sha256_compress, sha256_extend_word};
use crate::syscalls::{SyscallCode, FD_PUBLIC_VALUES, NUM_SYSCALLS};
use crate::vm;

verus! {

/// A source of memory values for the interpreter.
pub trait MemSource: Sized {
    /// The memory in mathematical terms.
    spec fn bus(&self) -> Bus;

    /// The source is well formed.
    spec fn wf(&self) -> bool;

    /// Reads a word.
    fn mr(&mut self, addr: u32, clk: u64) -> (r: u32)
        requires
            old(self).wf(),
            crate::memory::addressable(addr),
        ensures
            final(self).wf(),
            final(self).bus() == old(self).bus().read(addr, clk),
            r == old(self).bus().entry(addr).value,
    ;

    /// Writes a word.
    fn mw(&mut self, addr: u32, value: u32, clk: u64)
        requires
            old(self).wf(),
            crate::memory::addressable(addr),
        ensures
            final(self).wf(),
            final(self).bus() == old(self).bus().write(addr, value, clk),
    ;

    /// The value of a word that is overwritten `ahead` accesses from now.
    fn word_peek(&self, addr: u32, ahead: usize) -> (r: u32)
        requires
            self.wf(),
        ensures
            r == self.bus().peek(addr, ahead as nat),
    ;

    /// Looks at a word: logs it without touching its timestamp.
    fn mr_log_only(&mut self, addr: u32) -> (r: u32)
        requires
            old(self).wf(),
            crate::memory::addressable(addr),
        ensures
            final(self).wf(),
            final(self).bus() == old(self).bus().look(addr),
            r == old(self).bus().seen(addr),
    ;

    /// Forks the memory.
    fn enter_unconstrained(&mut self)
        requires
            old(self).wf(),
        ensures
            final(self).wf(),
            final(self).bus() == old(self).bus().enter(),
    ;

    /// Rolls the memory back to the fork.
    fn exit_unconstrained(&mut self)
        requires
            old(self).wf(),
        ensures
            final(self).wf(),
            final(self).bus() == old(self).bus().exit(),
    ;

    /// The length of the next hint.
    fn resolve_hint_len(&mut self, clk: u64) -> (r: Result<u32, ExecutionError>)
        requires
            old(self).wf(),
        ensures
            final(self).wf(),
            (final(self).bus(), r) == old(self).bus().hint_len(clk),
    ;

    /// Places the next hint.
    fn resolve_hint_read(&mut self, ptr: u32, len: u32) -> (r: Result<(), ExecutionError>)
        requires
            old(self).wf(),
        ensures
            final(self).wf(),
            (final(self).bus(), r) == old(self).bus().hint_read(ptr, len),
    ;

    /// Writes bytes to a file descriptor other than the public values.
    fn write_fd(&mut self, fd: u32, bytes: Vec<u8>) -> (r: Result<(), ExecutionError>)
        requires
            old(self).wf(),
        ensures
            final(self).wf(),
            (final(self).bus(), r) == old(self).bus().write_fd(fd, bytes@),
    ;
}

/// What an unconstrained block returns to.
#[derive(Clone, Copy)]
pub struct ForkPoint {
    pub pc: u32,
    pub clk: u64,
    pub registers: [u32; 36],
}

impl ForkPoint {
    /// The fork in mathematical terms.
    pub open spec fn model(self) -> Fork {
        Fork { pc: self.pc, clk: self.clk, regs: self.registers@ }
    }
}

/// An interpreter over a source of memory values.
pub struct CoreVM<M: MemSource> {
    pub program: Arc<Program>,
    pub registers: [u32; 36],
    pub mem: M,
    pub pc: u32,
    pub next_pc: u32,
    pub clk: u64,
    pub next_is_delayslot: bool,
    pub exited: bool,
    pub max_syscall_cycles: u32,
    pub public_values_stream: Vec<u8>,
    pub fork: Option<ForkPoint>,
    pub retired: u64,
    pub opcode_counts: Vec<u64>,
    pub syscall_counts: Vec<u64>,
}

/// What a system call does besides its memory accesses.
pub struct CallEffect {
    next_pc: u32,
    result: Option<u32>,
    extra: u64,
}

impl CallEffect {
    /// The effect in mathematical terms.
    pub closed spec fn model(self) -> Effect {
        Effect { next_pc: self.next_pc, result: self.result, extra: self.extra }
    }
}

/// A call ends as it should.
pub open spec fn ends_as(
    r: Result<CallEffect, ExecutionError>,
    expected: Result<Effect, ExecutionError>,
) -> bool {
    match (r, expected) {
        (Ok(e), Ok(f)) => e.model() == f && f.extra <= 48,
        (Err(e), Err(f)) => e == f,
        _ => false,
    }
}

/// `n` counters at zero.
fn zero_counts(n: usize) -> (r: Vec<u64>)
    ensures
        r@ == Seq::new(n as nat, |i: int| 0u64),
{
    let mut r: Vec<u64> = Vec::new();
    while r.len() < n
        invariant
            r@.len() <= n,
            r@ == Seq::new(r@.len(), |i: int| 0u64),
        decreases n - r@.len(),
    {
        r.push(0);
        proof {
            assert(r@ =~= Seq::new(r@.len(), |i: int| 0u64));
        }
    }
    r
}

/// Whether `n` words from `ptr` on lie in guest memory.
fn fit_words(ptr: u32, n: usize) -> (r: bool)
    requires
        n <= 0xffff_ffff,
    ensures
        r == machine::words_fit(ptr, n as nat),
{
    n == 0 || (ptr as u64) + 4 * ((n - 1) as u64) < ADDRESS_END as u64
}

impl<M: MemSource> CoreVM<M> {
    /// The machine in mathematical terms.
    pub open spec fn cpu(&self) -> Cpu {
        Cpu {
            regs: self.registers@,
            pc: self.pc,
            next_pc: self.next_pc,
            clk: self.clk,
            delay: self.next_is_delayslot,
            exited: self.exited,
            output: self.public_values_stream@,
            fork: match self.fork {
                Some(f) => Some(f.model()),
                None => None,
            },
            retired: self.retired,
            opcodes: self.opcode_counts@,
            syscalls: self.syscall_counts@,
            bus: self.mem.bus(),
        }
    }

    /// The parts fit together.
    pub open spec fn wf(&self) -> bool {
        &&& self.mem.wf()
        &&& self.program.wf()
        &&& self.opcode_counts@.len() == NUM_OPCODES
        &&& self.syscall_counts@.len() == NUM_SYSCALLS
        &&& self.fork matches Some(f) ==> f.clk <= CLOCK_LIMIT + 0x100_0000 && self.program.contains_pc(f.pc)
    }

    /// Everything but the state of the current instruction is as before.
    pub open spec fn same_setup(&self, before: &Self) -> bool {
        &&& self.program == before.program
        &&& self.max_syscall_cycles == before.max_syscall_cycles
        &&& self.retired == before.retired
    }

    /// Create an interpreter that starts at the given point.
    pub fn new(
        program: Arc<Program>,
        registers: [u32; 36],
        mem: M,
        pc: u32,
        clk: u64,
        max_syscall_cycles: u32,
    ) -> (r: Self)
        requires
            mem.wf(),
            program.wf(),
        ensures
            r.wf(),
            r.program == program,
            r.max_syscall_cycles == max_syscall_cycles,
            r.cpu() == (Cpu {
                regs: registers@,
                pc,
                next_pc: pc.wrapping_add(4),
                clk,
                delay: false,
                exited: false,
                output: Seq::empty(),
                fork: None,
                retired: 0,
                opcodes: Seq::new(NUM_OPCODES as nat, |i: int| 0u64),
                syscalls: Seq::new(NUM_SYSCALLS as nat, |i: int| 0u64),
                bus: mem.bus(),
            }),
    {
        CoreVM {
            program,
            registers,
            mem,
            pc,
            next_pc: pc.wrapping_add(4),
            clk,
            next_is_delayslot: false,
            exited: false,
            max_syscall_cycles,
            public_values_stream: Vec::new(),
            fork: None,
            retired: 0,
            opcode_counts: zero_counts(NUM_OPCODES),
            syscall_counts: zero_counts(NUM_SYSCALLS),
        }
    }

    /// The value of a register.
    pub fn reg(&self, r: u8) -> (v: u32)
        requires
            r < NUM_REGISTERS,
        ensures
            v == self.cpu().reg(r),
    {
        self.registers[r as usize]
    }

    /// Writes a register. The first one stays zero.
    fn set_reg(&mut self, r: u8, value: u32)
        requires
            old(self).wf(),
            r < NUM_REGISTERS,
        ensures
            final(self).wf(),
            final(self).same_setup(old(self)),
            final(self).cpu() == old(self).cpu().set(r, value),
    {
        let value: u32 = if r == 0 { 0 } else { value };
        self.registers[r as usize] = value;
        proof {
            assert(self.cpu() =~= old(self).cpu().set(r, value));
        }
    }

    /// Whether the program has ended.
    pub fn is_done(&self) -> (r: bool)
        ensures
            r == self.cpu().done(*self.program),
    {
        self.pc == 0 || self.exited || !self.program.has_pc(self.pc)
    }

    /// Executes an arithmetic or logic instruction.
    fn execute_alu(&mut self, i: &Instruction) -> (r: Result<(), ExecutionError>)
        requires
            old(self).wf(),
            i.wf(),
            i.opcode.class() == OpClass::Alu,
        ensures
            final(self).wf(),
            final(self).same_setup(old(self)),
            (final(self).cpu(), r) == old(self).cpu().alu(*i),
    {
        let b: u32 = if i.imm_b && i.imm_c { i.op_b } else { self.reg(i.op_b as u8) };
        let c: u32 = if i.imm_c { i.op_c } else { self.reg(i.op_c as u8) };
        let (a, hi) = match vm::alu_compute(i.opcode, b, c) {
            Ok(v) => v,
            Err(e) => {
                return Err(e);
            },
        };
        if i.opcode.is_use_lo_hi_alu() {
            self.set_reg(Register::LO.index(), a);
            self.set_reg(Register::HI.index(), hi);
        } else {
            self.set_reg(i.op_a, a);
        }
        Ok(())
    }

    /// Executes a load.
    fn execute_load(&mut self, i: &Instruction) -> (r: Result<(), ExecutionError>)
        requires
            old(self).wf(),
            i.wf(),
            i.opcode.class() == OpClass::Load,
        ensures
            final(self).wf(),
            final(self).same_setup(old(self)),
            (final(self).cpu(), r) == old(self).cpu().load(*i),
    {
        let addr: u32 = self.reg(i.op_b as u8).wrapping_add(i.op_c);
        let rt: u32 = self.reg(i.op_a);
        let aligned: u32 = addr - addr % 4;
        if aligned as usize > MAX_MEMORY - 3 {
            return Err(ExecutionError::MemoryOutOfBoundsAccess(addr as u64));
        }
        let mem: u32 = self.mem.mr(aligned, self.clk);
        match vm::load_value(i.opcode, addr, mem, rt) {
            Ok(value) => {
                self.set_reg(i.op_a, value);
                Ok(())
            },
            Err(e) => Err(e),
        }
    }

    /// Executes a store.
    fn execute_store(&mut self, i: &Instruction) -> (r: Result<(), ExecutionError>)
        requires
            old(self).wf(),
            i.wf(),
            i.opcode.class() == OpClass::Store,
        ensures
            final(self).wf(),
            final(self).same_setup(old(self)),
            (final(self).cpu(), r) == old(self).cpu().store(*i),
    {
        let addr: u32 = self.reg(i.op_b as u8).wrapping_add(i.op_c);
        let rt: u32 = self.reg(i.op_a);
        let aligned: u32 = addr - addr % 4;
        let mem: u32 = self.mem.word_peek(aligned, 0);
        let value: u32 = match vm::store_value(i.opcode, addr, mem, rt) {
            Ok(value) => value,
            Err(e) => {
                return Err(e);
            },
        };
        if aligned as usize > MAX_MEMORY - 3 {
            return Err(ExecutionError::MemoryOutOfBoundsAccess(addr as u64));
        }
        self.mem.mw(aligned, value, self.clk);
        if matches!(i.opcode, Opcode::SC) {
            self.set_reg(i.op_a, 1);
        }
        Ok(())
    }

    /// Executes a bit-field, trap or multiply-accumulate instruction.
    fn execute_misc(&mut self, i: &Instruction) -> (r: Result<(), ExecutionError>)
        requires
            old(self).wf(),
            i.wf(),
            i.opcode.class() == OpClass::Misc,
        ensures
            final(self).wf(),
            final(self).same_setup(old(self)),
            (final(self).cpu(), r) == old(self).cpu().misc(*i),
    {
        let b: u32 = self.reg(i.op_b as u8);
        let a: u32 = self.reg(i.op_a);
        match i.opcode {
            Opcode::WSBH => {
                self.set_reg(i.op_a, vm::wsbh(b));
            },
            Opcode::SEXT => {
                self.set_reg(i.op_a, vm::sext(b, i.op_c));
            },
            Opcode::EXT => match vm::ext(b, i.op_c) {
                Ok(v) => {
                    self.set_reg(i.op_a, v);
                },
                Err(e) => {
                    return Err(e);
                },
            },
            Opcode::INS => match vm::ins(a, b, i.op_c) {
                Ok(v) => {
                    self.set_reg(i.op_a, v);
                },
                Err(e) => {
                    return Err(e);
                },
            },
            Opcode::TEQ => {
                return vm::teq(a, b);
            },
            _ => {
                let c: u32 = self.reg(i.op_c as u8);
                let lo: u32 = self.reg(Register::LO.index());
                let hi: u32 = self.reg(Register::HI.index());
                let (out_lo, out_hi) = match i.opcode {
                    Opcode::MADDU => vm::maddu(b, c, lo, hi),
                    Opcode::MSUBU => vm::msubu(b, c, lo, hi),
                    Opcode::MADD => vm::madd(b, c, lo, hi),
                    _ => vm::msub(b, c, lo, hi),
                };
                self.set_reg(i.op_a, out_lo);
                self.set_reg(Register::HI.index(), out_hi);
            },
        }
        Ok(())
    }

    /// Passes control on.
    fn advance(&mut self, pc: u32, next_pc: u32) -> (r: Result<(), ExecutionError>)
        requires
            old(self).wf(),
        ensures
            final(self).wf(),
            final(self).same_setup(old(self)),
            (final(self).cpu(), r) == old(self).cpu().advance(pc, next_pc),
    {
        if next_pc == 0 {
            return Err(ExecutionError::NullPointerReference());
        }
        self.pc = pc;
        self.next_pc = next_pc;
        Ok(())
    }
}

/// A buffer in guest memory lies where its addresses do not wrap.
proof fn lemma_word_in_range(ptr: u32, n: nat, i: int)
    requires
        machine::words_fit(ptr, n),
        0 <= i < n,
    ensures
        machine::word_at(ptr, i) == ptr + 4 * i,
        crate::memory::addressable(machine::word_at(ptr, i)),
{
}

impl<M: MemSource> CoreVM<M> {
    /// Reads consecutive words.
    fn mr_slice(&mut self, ptr: u32, n: usize) -> (r: Vec<u32>)
        requires
            old(self).wf(),
            machine::words_fit(ptr, n as nat),
            n <= 0xffff_ffff,
        ensures
            final(self).wf(),
            final(self).same_setup(old(self)),
            final(self).cpu() == old(self).cpu().with_bus(
                old(self).mem.bus().read_many(ptr, n as nat, old(self).clk).0,
            ),
            r@ == old(self).mem.bus().read_many(ptr, n as nat, old(self).clk).1,
            r@.len() == n,
    {
        let mut words: Vec<u32> = Vec::new();
        let mut i: usize = 0;
        let ghost bus = self.mem.bus();
        let ghost start = self.cpu();
        while i < n
            invariant
                i <= n,
                n <= 0xffff_ffff,
                machine::words_fit(ptr, n as nat),
                self.wf(),
                self.same_setup(old(self)),
                start == old(self).cpu(),
                bus == start.bus,
                self.cpu() == start.with_bus(bus.read_many(ptr, i as nat, start.clk).0),
                words@ == bus.read_many(ptr, i as nat, start.clk).1,
                words@.len() == i,
            decreases n - i,
        {
            proof {
                lemma_word_in_range(ptr, n as nat, i as int);
            }
            let addr: u32 = ptr + 4 * (i as u32);
            let w: u32 = self.mem.mr(addr, self.clk);
            words.push(w);
            i = i + 1;
        }
        words
    }

    /// Writes consecutive words.
    fn mw_slice(&mut self, ptr: u32, words: &Vec<u32>)
        requires
            old(self).wf(),
            machine::words_fit(ptr, words@.len()),
            words@.len() <= 0xffff_ffff,
        ensures
            final(self).wf(),
            final(self).same_setup(old(self)),
            final(self).cpu() == old(self).cpu().with_bus(
                old(self).mem.bus().write_many(ptr, words@, words@.len(), old(self).clk),
            ),
    {
        let mut i: usize = 0;
        let ghost bus = self.mem.bus();
        let ghost start = self.cpu();
        while i < words.len()
            invariant
                i <= words@.len(),
                words@.len() <= 0xffff_ffff,
                machine::words_fit(ptr, words@.len()),
                self.wf(),
                self.same_setup(old(self)),
                start == old(self).cpu(),
                bus == start.bus,
                self.cpu() == start.with_bus(bus.write_many(ptr, words@, i as nat, start.clk)),
            decreases words@.len() - i,
        {
            proof {
                lemma_word_in_range(ptr, words@.len(), i as int);
            }
            let addr: u32 = ptr + 4 * (i as u32);
            self.mem.mw(addr, words[i], self.clk);
            i = i + 1;
        }
    }

    /// The values of consecutive words that are overwritten `ahead` accesses from now.
    fn slice_peek(&self, ptr: u32, n: usize, ahead: usize) -> (r: Vec<u32>)
        requires
            self.wf(),
            machine::words_fit(ptr, n as nat),
            n + ahead <= 0xffff,
        ensures
            r@ == self.mem.bus().peek_many(ptr, n as nat, ahead as nat),
            r@.len() == n,
    {
        let mut words: Vec<u32> = Vec::new();
        let mut i: usize = 0;
        while i < n
            invariant
                i <= n,
                n + ahead <= 0xffff,
                machine::words_fit(ptr, n as nat),
                self.wf(),
                words@ =~= self.mem.bus().peek_many(ptr, i as nat, ahead as nat),
            decreases n - i,
        {
            proof {
                lemma_word_in_range(ptr, n as nat, i as int);
            }
            words.push(self.mem.word_peek(ptr + 4 * (i as u32), ahead + i));
            i = i + 1;
        }
        words
    }

    /// Looks at consecutive bytes.
    fn bytes_peek(&mut self, ptr: u32, n: u32) -> (r: Vec<u8>)
        requires
            old(self).wf(),
            machine::bytes_fit(ptr, n as nat),
        ensures
            final(self).wf(),
            final(self).same_setup(old(self)),
            final(self).cpu() == old(self).cpu().with_bus(
                old(self).mem.bus().look_bytes(ptr, n as nat).0,
            ),
            r@ == old(self).mem.bus().look_bytes(ptr, n as nat).1,
    {
        let mut bytes: Vec<u8> = Vec::new();
        let mut i: u32 = 0;
        let ghost bus = self.mem.bus();
        let ghost start = self.cpu();
        while i < n
            invariant
                i <= n,
                machine::bytes_fit(ptr, n as nat),
                self.wf(),
                self.same_setup(old(self)),
                start == old(self).cpu(),
                bus == start.bus,
                self.cpu() == start.with_bus(bus.look_bytes(ptr, i as nat).0),
                bytes@ == bus.look_bytes(ptr, i as nat).1,
            decreases n - i,
        {
            let addr: u32 = ptr + i;
            let word: u32 = self.mem.mr_log_only(addr - addr % 4);
            let shift: u32 = (addr % 4) * 8;
            let byte: u32 = (word >> shift) & 0xff;
            bytes.push(byte as u8);
            i = i + 1;
        }
        bytes
    }

    /// The effect of a call that returns to the next instruction.
    fn returning(&self, result: Option<u32>, extra: u64) -> (r: CallEffect)
        ensures
            r.model() == self.cpu().returning(result, extra),
    {
        CallEffect { next_pc: self.pc.wrapping_add(4), result, extra }
    }

    /// Sets the result and the error flag.
    fn flagged(&mut self, result: u32, flag: u32) -> (r: Result<CallEffect, ExecutionError>)
        requires
            old(self).wf(),
        ensures
            final(self).wf(),
            final(self).same_setup(old(self)),
            final(self).cpu() == old(self).cpu().flagged(result, flag).0,
            ends_as(r, old(self).cpu().flagged(result, flag).1),
    {
        self.set_reg(Register::A3.index(), flag);
        Ok(self.returning(Some(result), 0))
    }

    /// Writes bytes to a file descriptor.
    fn write_call(&mut self, fd: u32, buf: u32) -> (r: Result<CallEffect, ExecutionError>)
        requires
            old(self).wf(),
        ensures
            final(self).wf(),
            final(self).same_setup(old(self)),
            final(self).cpu() == old(self).cpu().write_call(fd, buf).0,
            ends_as(r, old(self).cpu().write_call(fd, buf).1),
            final(self).clk <= old(self).clk + 1,
    {
        reveal(Cpu::write_call);
        let n: u32 = self.reg(Register::A2.index());
        if n != 0 && (buf as u64) + ((n - 1) as u64) >= ADDRESS_END as u64 {
            return Err(ExecutionError::MemoryOutOfBoundsAccess(buf as u64));
        }
        let mut bytes: Vec<u8> = self.bytes_peek(buf, n);
        if fd == FD_PUBLIC_VALUES {
            self.public_values_stream.append(&mut bytes);
        } else if let Err(e) = self.mem.write_fd(fd, bytes) {
            return Err(e);
        }
        Ok(self.returning(None, 0))
    }

    /// Writes bytes to a file descriptor, keeping the public values only.
    fn sys_write(&mut self, fd: u32, buf: u32) -> (r: Result<CallEffect, ExecutionError>)
        requires
            old(self).wf(),
        ensures
            final(self).wf(),
            final(self).same_setup(old(self)),
            final(self).cpu() == old(self).cpu().sys_write(fd, buf).0,
            ends_as(r, old(self).cpu().sys_write(fd, buf).1),
            final(self).clk <= old(self).clk + 1,
    {
        reveal(Cpu::sys_write);
        let n: u32 = self.reg(Register::A2.index());
        if n != 0 && (buf as u64) + ((n - 1) as u64) >= ADDRESS_END as u64 {
            return Err(ExecutionError::MemoryOutOfBoundsAccess(buf as u64));
        }
        let mut bytes: Vec<u8> = self.bytes_peek(buf, n);
        if fd == FD_PUBLIC_VALUES {
            self.public_values_stream.append(&mut bytes);
        }
        self.flagged(n, 0)
    }

    /// Moves the break.
    fn brk_call(&mut self, requested: u32) -> (r: Result<CallEffect, ExecutionError>)
        requires
            old(self).wf(),
        ensures
            final(self).wf(),
            final(self).same_setup(old(self)),
            final(self).cpu() == old(self).cpu().brk_call(*old(self).program, requested).0,
            ends_as(r, old(self).cpu().brk_call(*old(self).program, requested).1),
    {
        broadcast use vstd::std_specs::btree::group_btree_axioms;

        let key: u32 = Register::BRK.index() as u32;
        let initial: u32 = match self.program.image.get(&key) {
            Some(v) => *v,
            None => self.reg(Register::BRK.index()),
        };
        match vm::resolve_brk(initial, initial, requested) {
            Ok(v) => self.flagged(v, 0),
            Err(e) => Err(e),
        }
    }

    /// Compresses a message schedule.
    fn sha_compress(&mut self, w_ptr: u32, h_ptr: u32) -> (r: Result<CallEffect, ExecutionError>)
        requires
            old(self).wf(),
        ensures
            final(self).wf(),
            final(self).same_setup(old(self)),
            final(self).cpu() == old(self).cpu().sha_compress(w_ptr, h_ptr).0,
            ends_as(r, old(self).cpu().sha_compress(w_ptr, h_ptr).1),
            final(self).clk <= old(self).clk + 1,
    {
        reveal(Cpu::sha_compress);
        if !fit_words(h_ptr, 8) {
            return Err(ExecutionError::MemoryOutOfBoundsAccess(h_ptr as u64));
        }
        if !fit_words(w_ptr, 64) {
            return Err(ExecutionError::MemoryOutOfBoundsAccess(w_ptr as u64));
        }
        let h: Vec<u32> = self.mr_slice(h_ptr, 8);
        let w: Vec<u32> = self.mr_slice(w_ptr, 64);
        let out: Vec<u32> = sha256_compress(&h, &w);
        self.mw_slice(h_ptr, &out);
        Ok(self.returning(None, 1))
    }

    /// Extends a message schedule.
    fn sha_extend(&mut self, w_ptr: u32) -> (r: Result<CallEffect, ExecutionError>)
        requires
            old(self).wf(),
        ensures
            final(self).wf(),
            final(self).same_setup(old(self)),
            final(self).cpu() == old(self).cpu().sha_extend(w_ptr).0,
            ends_as(r, old(self).cpu().sha_extend(w_ptr).1),
            final(self).clk <= old(self).clk + 1,
    {
        reveal(Cpu::sha_extend);
        if !fit_words(w_ptr, 64) {
            return Err(ExecutionError::MemoryOutOfBoundsAccess(w_ptr as u64));
        }
        let mut i: u32 = 16;
        let ghost bus = self.mem.bus();
        let ghost start = self.cpu();
        while i < 64
            invariant
                16 <= i <= 64,
                machine::words_fit(w_ptr, 64),
                self.wf(),
                self.same_setup(old(self)),
                start == old(self).cpu(),
                bus == start.bus,
                self.cpu() == start.with_bus(bus.extend_schedule(w_ptr, i as nat, start.clk)),
            decreases 64 - i,
        {
            let clk: u64 = self.clk;
            let w15: u32 = self.mem.mr(w_ptr + (i - 15) * 4, clk);
            let w2: u32 = self.mem.mr(w_ptr + (i - 2) * 4, clk);
            let w16: u32 = self.mem.mr(w_ptr + (i - 16) * 4, clk);
            let w7: u32 = self.mem.mr(w_ptr + (i - 7) * 4, clk);
            let w: u32 = sha256_extend_word(w15, w2, w16, w7);
            self.mem.mw(w_ptr + i * 4, w, clk);
            i = i + 1;
        }
        Ok(self.returning(None, 48))
    }

    /// Hashes words.
    fn keccak_call(&mut self, input_ptr: u32, result_ptr: u32) -> (r: Result<CallEffect, ExecutionError>)
        requires
            old(self).wf(),
        ensures
            final(self).wf(),
            final(self).same_setup(old(self)),
            final(self).cpu() == old(self).cpu().keccak_sponge(input_ptr, result_ptr).0,
            ends_as(r, old(self).cpu().keccak_sponge(input_ptr, result_ptr).1),
            final(self).clk <= old(self).clk + 1,
    {
        reveal(Cpu::keccak_sponge);
        if !fit_words(result_ptr, 17) {
            return Err(ExecutionError::MemoryOutOfBoundsAccess(result_ptr as u64));
        }
        proof {
            lemma_word_in_range(result_ptr, 17, 16);
        }
        let len: u32 = self.mem.mr(result_ptr + 64, self.clk);
        if !fit_words(input_ptr, len as usize) {
            return Err(ExecutionError::MemoryOutOfBoundsAccess(input_ptr as u64));
        }
        let words: Vec<u32> = self.mr_slice(input_ptr, len as usize);
        let state: Vec<u64> = keccak_sponge(&words);
        let out: Vec<u32> = keccak::squeeze(&state);
        self.mw_slice(result_ptr, &out);
        Ok(self.returning(None, 1))
    }

    /// Maps memory.
    fn mmap_call(&mut self, addr: u32, len: u32) -> (r: Result<CallEffect, ExecutionError>)
        requires
            old(self).wf(),
        ensures
            final(self).wf(),
            final(self).same_setup(old(self)),
            final(self).cpu() == old(self).cpu().mmap_call(addr, len).0,
            ends_as(r, old(self).cpu().mmap_call(addr, len).1),
    {
        let size: u32 = match vm::align_size(len) {
            Ok(size) => size,
            Err(e) => {
                return Err(e);
            },
        };
        if addr == 0 {
            let heap: u32 = self.reg(Register::HEAP.index());
            self.set_reg(Register::HEAP.index(), heap.wrapping_add(size));
            self.flagged(heap, 0)
        } else {
            self.flagged(addr, 0)
        }
    }

    /// Enters an unconstrained block.
    fn enter_call(&mut self) -> (r: Result<CallEffect, ExecutionError>)
        requires
            old(self).wf(),
            old(self).clk <= CLOCK_LIMIT + 0x100_0000,
            old(self).program.contains_pc(old(self).pc),
        ensures
            final(self).wf(),
            final(self).same_setup(old(self)),
            final(self).cpu() == old(self).cpu().enter_call().0,
            ends_as(r, old(self).cpu().enter_call().1),
    {
        self.fork = Some(ForkPoint { pc: self.pc, clk: self.clk, registers: self.registers });
        self.mem.enter_unconstrained();
        Ok(self.returning(Some(1), 0))
    }

    /// Leaves an unconstrained block.
    fn exit_call(&mut self) -> (r: Result<CallEffect, ExecutionError>)
        requires
            old(self).wf(),
        ensures
            final(self).wf(),
            final(self).same_setup(old(self)),
            final(self).cpu() == old(self).cpu().exit_call().0,
            ends_as(r, old(self).cpu().exit_call().1),
    {
        match self.fork {
            None => Ok(self.returning(Some(0), 0)),
            Some(fork) => {
                self.fork = None;
                self.registers = fork.registers;
                self.clk = fork.clk;
                self.pc = fork.pc;
                self.mem.exit_unconstrained();
                Ok(self.returning(Some(0), 0))
            },
        }
    }

    /// Replaces one operand, using another one.
    fn binary_call(&mut self, op: Precompile, x_ptr: u32, y_ptr: u32) -> (r: Result<
        CallEffect,
        ExecutionError,
    >)
        requires
            old(self).wf(),
            op.shape() == Shape::Binary,
            old(self).clk <= CLOCK_LIMIT + 0x100_0000,
        ensures
            final(self).wf(),
            final(self).same_setup(old(self)),
            final(self).cpu() == old(self).cpu().binary_call(op, x_ptr, y_ptr).0,
            ends_as(r, old(self).cpu().binary_call(op, x_ptr, y_ptr).1),
            final(self).clk <= old(self).clk + 1,
    {
        reveal(Cpu::binary_call);
        let n: usize = op.num_words();
        if !fit_words(x_ptr, n) {
            return Err(ExecutionError::MemoryOutOfBoundsAccess(x_ptr as u64));
        }
        if !fit_words(y_ptr, n) {
            return Err(ExecutionError::MemoryOutOfBoundsAccess(y_ptr as u64));
        }
        let x: Vec<u32> = self.slice_peek(x_ptr, n, n);
        let y: Vec<u32> = self.mr_slice(y_ptr, n);
        self.clk = self.clk + 1;
        let out: Vec<u32> = op.apply_binary(&x, &y);
        self.mw_slice(x_ptr, &out);
        Ok(self.returning(None, 0))
    }

    /// Replaces one operand.
    fn unary_call(&mut self, op: Precompile, x_ptr: u32) -> (r: Result<CallEffect, ExecutionError>)
        requires
            old(self).wf(),
            op.shape() == Shape::Unary,
        ensures
            final(self).wf(),
            final(self).same_setup(old(self)),
            final(self).cpu() == old(self).cpu().unary_call(op, x_ptr).0,
            ends_as(r, old(self).cpu().unary_call(op, x_ptr).1),
            final(self).clk <= old(self).clk + 1,
    {
        reveal(Cpu::unary_call);
        let n: usize = op.num_words();
        if !fit_words(x_ptr, n) {
            return Err(ExecutionError::MemoryOutOfBoundsAccess(x_ptr as u64));
        }
        let x: Vec<u32> = self.slice_peek(x_ptr, n, 0);
        let out: Vec<u32> = op.apply_unary(&x);
        self.mw_slice(x_ptr, &out);
        Ok(self.returning(None, 0))
    }

    /// Computes the missing coordinate of a point.
    fn decompress_call(&mut self, op: Precompile, ptr: u32, sign: u32) -> (r: Result<
        CallEffect,
        ExecutionError,
    >)
        requires
            old(self).wf(),
            op.shape() == Shape::Decompress,
        ensures
            final(self).wf(),
            final(self).same_setup(old(self)),
            final(self).cpu() == old(self).cpu().decompress_call(op, ptr, sign).0,
            ends_as(r, old(self).cpu().decompress_call(op, ptr, sign).1),
            final(self).clk <= old(self).clk + 1,
    {
        reveal(Cpu::decompress_call);
        let n: usize = op.num_words();
        if !fit_words(ptr, 2 * n) {
            return Err(ExecutionError::MemoryOutOfBoundsAccess(ptr as u64));
        }
        let x: Vec<u32> = self.mr_slice(ptr + 4 * (n as u32), n);
        match op.apply_decompress(&x, sign) {
            Err(e) => Err(ExecutionError::CurveError(e)),
            Ok(y) => {
                self.mw_slice(ptr, &y);
                Ok(self.returning(None, 0))
            },
        }
    }

    /// Multiplies modulo the number behind the second operand.
    fn modular_call(&mut self, x_ptr: u32, y_ptr: u32) -> (r: Result<CallEffect, ExecutionError>)
        requires
            old(self).wf(),
            old(self).clk <= CLOCK_LIMIT + 0x100_0000,
        ensures
            final(self).wf(),
            final(self).same_setup(old(self)),
            final(self).cpu() == old(self).cpu().modular_call(x_ptr, y_ptr).0,
            ends_as(r, old(self).cpu().modular_call(x_ptr, y_ptr).1),
            final(self).clk <= old(self).clk + 1,
    {
        reveal(Cpu::modular_call);
        if !fit_words(x_ptr, 8) {
            return Err(ExecutionError::MemoryOutOfBoundsAccess(x_ptr as u64));
        }
        if !fit_words(y_ptr, 16) {
            return Err(ExecutionError::MemoryOutOfBoundsAccess(y_ptr as u64));
        }
        let x: Vec<u32> = self.slice_peek(x_ptr, 8, 16);
        let y: Vec<u32> = self.mr_slice(y_ptr, 8);
        let modulus: Vec<u32> = self.mr_slice(y_ptr + 32, 8);
        self.clk = self.clk + 1;
        let out: Vec<u32> = uint256_mul(&x, &y, &modulus);
        self.mw_slice(x_ptr, &out);
        Ok(self.returning(None, 0))
    }

    /// Multiplies into two results.
    fn wide_call(&mut self, a_ptr: u32, b_ptr: u32) -> (r: Result<CallEffect, ExecutionError>)
        requires
            old(self).wf(),
            old(self).clk <= CLOCK_LIMIT + 0x100_0000,
        ensures
            final(self).wf(),
            final(self).same_setup(old(self)),
            final(self).cpu() == old(self).cpu().wide_call(a_ptr, b_ptr).0,
            ends_as(r, old(self).cpu().wide_call(a_ptr, b_ptr).1),
            final(self).clk <= old(self).clk + 1,
    {
        reveal(Cpu::wide_call);
        let lo_ptr: u32 = self.reg(Register::A2.index());
        let hi_ptr: u32 = self.reg(Register::A3.index());
        if !fit_words(a_ptr, 8) {
            return Err(ExecutionError::MemoryOutOfBoundsAccess(a_ptr as u64));
        }
        if !fit_words(b_ptr, 64) {
            return Err(ExecutionError::MemoryOutOfBoundsAccess(b_ptr as u64));
        }
        if !fit_words(lo_ptr, 64) {
            return Err(ExecutionError::MemoryOutOfBoundsAccess(lo_ptr as u64));
        }
        if !fit_words(hi_ptr, 8) {
            return Err(ExecutionError::MemoryOutOfBoundsAccess(hi_ptr as u64));
        }
        let a: Vec<u32> = self.mr_slice(a_ptr, 8);
        let b: Vec<u32> = self.mr_slice(b_ptr, 64);
        self.clk = self.clk + 1;
        let (lo, hi) = u256xu2048_mul(&a, &b);
        self.mw_slice(lo_ptr, &lo);
        self.mw_slice(hi_ptr, &hi);
        Ok(self.returning(None, 0))
    }
}

impl<M: MemSource> CoreVM<M> {
    /// Halts.
    fn halt(&mut self, exit_code: u32) -> (r: Result<CallEffect, ExecutionError>)
        requires
            old(self).wf(),
        ensures
            final(self).wf(),
            final(self).same_setup(old(self)),
            final(self).cpu() == old(self).cpu().halt(exit_code).0,
            ends_as(r, old(self).cpu().halt(exit_code).1),
    {
        if exit_code != 0 {
            return Err(ExecutionError::HaltWithNonZeroExitCode(exit_code));
        }
        self.exited = true;
        Ok(CallEffect { next_pc: 0, result: None, extra: 0 })
    }

    /// The length of the next hint.
    fn hint_len_call(&mut self) -> (r: Result<CallEffect, ExecutionError>)
        requires
            old(self).wf(),
        ensures
            final(self).wf(),
            final(self).same_setup(old(self)),
            final(self).cpu() == old(self).cpu().hint_len_call().0,
            ends_as(r, old(self).cpu().hint_len_call().1),
            final(self).clk <= old(self).clk + 1,
    {
        reveal(Cpu::hint_len_call);
        match self.mem.resolve_hint_len(self.clk) {
            Ok(len) => Ok(self.returning(Some(len), 0)),
            Err(e) => Err(e),
        }
    }

    /// Places the next hint.
    fn hint_read_call(&mut self, ptr: u32, len: u32) -> (r: Result<CallEffect, ExecutionError>)
        requires
            old(self).wf(),
        ensures
            final(self).wf(),
            final(self).same_setup(old(self)),
            final(self).cpu() == old(self).cpu().hint_read_call(ptr, len).0,
            ends_as(r, old(self).cpu().hint_read_call(ptr, len).1),
    {
        match self.mem.resolve_hint_read(ptr, len) {
            Ok(()) => Ok(self.returning(None, 0)),
            Err(e) => Err(e),
        }
    }

    /// Makes a system call.
    fn dispatch(&mut self, code: SyscallCode, arg1: u32, arg2: u32) -> (r: Result<
        CallEffect,
        ExecutionError,
    >)
        requires
            old(self).wf(),
            old(self).clk <= CLOCK_LIMIT + 0x100_0000,
            old(self).program.contains_pc(old(self).pc),
        ensures
            final(self).wf(),
            final(self).same_setup(old(self)),
            final(self).cpu() == old(self).cpu().dispatch(*old(self).program, code, arg1, arg2).0,
            ends_as(r, old(self).cpu().dispatch(*old(self).program, code, arg1, arg2).1),
            final(self).clk <= CLOCK_LIMIT + 0x100_0001,
    {
        reveal(Cpu::dispatch);
        match code {
            SyscallCode::HALT => self.halt(arg1),
            SyscallCode::WRITE => self.write_call(arg1, arg2),
            SyscallCode::SYSHINTLEN => self.hint_len_call(),
            SyscallCode::SYSHINTREAD => self.hint_read_call(arg1, arg2),
            SyscallCode::SYS_BRK => self.brk_call(arg1),
            SyscallCode::SHA_COMPRESS => self.sha_compress(arg1, arg2),
            SyscallCode::SHA_EXTEND => self.sha_extend(arg1),
            SyscallCode::KECCAK_SPONGE => self.keccak_call(arg1, arg2),
            SyscallCode::SYS_MMAP | SyscallCode::SYS_MMAP2 => self.mmap_call(arg1, arg2),
            SyscallCode::SYS_CLONE => self.flagged(1, 0),
            SyscallCode::SYS_EXT_GROUP => {
                self.set_reg(Register::A3.index(), 0);
                Ok(CallEffect { next_pc: 0, result: Some(0), extra: 0 })
            },
            SyscallCode::SYS_FCNTL => {
                let (v0, a3) = vm::fcntl_result(arg1, arg2);
                self.flagged(v0, a3)
            },
            SyscallCode::SYS_READ => {
                let (v0, a3) = vm::read_result(arg1);
                self.flagged(v0, a3)
            },
            SyscallCode::SYS_WRITE => self.sys_write(arg1, arg2),
            SyscallCode::SYS_OPEN
            | SyscallCode::SYS_CLOSE
            | SyscallCode::SYS_RT_SIGACTION
            | SyscallCode::SYS_RT_SIGPROCMASK
            | SyscallCode::SYS_MADVISE
            | SyscallCode::SYS_GETTID
            | SyscallCode::SYS_SCHED_GETAFFINITY
            | SyscallCode::SYS_CLOCK_GETTIME
            | SyscallCode::SYS_NANOSLEEP
            | SyscallCode::SYS_PRLIMIT64
            | SyscallCode::SYS_SIGALTSTACK
            | SyscallCode::SYS_OPENAT
            | SyscallCode::SYS_FSTAT64
            | SyscallCode::SYS_MUNMAP => self.flagged(0, 0),
            SyscallCode::ENTER_UNCONSTRAINED => self.enter_call(),
            SyscallCode::EXIT_UNCONSTRAINED => self.exit_call(),
            _ => match Precompile::of_code(code) {
                Some(op) => match op.memory_shape() {
                    Shape::Binary => self.binary_call(op, arg1, arg2),
                    Shape::Unary => self.unary_call(op, arg1),
                    Shape::Decompress => self.decompress_call(op, arg1, arg2),
                    Shape::Modular => self.modular_call(arg1, arg2),
                    Shape::Wide => self.wide_call(arg1, arg2),
                },
                None => Ok(self.returning(None, 0)),
            },
        }
    }

    /// Executes the system call at the current `pc`, giving the address where control goes.
    ///
    /// Inside an unconstrained block only writing and leaving the block are allowed.
    pub fn execute_syscall(&mut self) -> (r: Result<u32, ExecutionError>)
        requires
            old(self).wf(),
            old(self).clk <= CLOCK_LIMIT + 0x100_0000,
            old(self).program.contains_pc(old(self).pc),
        ensures
            final(self).wf(),
            final(self).same_setup(old(self)),
            (final(self).cpu(), r) == old(self).cpu().syscall(*old(self).program),
            final(self).clk <= CLOCK_LIMIT + 0x100_0031,
    {
        let syscall_id: u32 = self.reg(Register::V0.index());
        let code: SyscallCode = SyscallCode::from_u32(syscall_id);
        let arg1: u32 = self.reg(Register::A0.index());
        let arg2: u32 = self.reg(Register::A1.index());
        if self.fork.is_some() && code != SyscallCode::WRITE && code
            != SyscallCode::EXIT_UNCONSTRAINED {
            return Err(ExecutionError::InvalidSyscallUsage(syscall_id as u64));
        }
        if self.fork.is_none() {
            let k: usize = code.index();
            let count: u64 = self.syscall_counts[k];
            self.syscall_counts.set(k, count.wrapping_add(1));
        }
        proof {
            assert(self.cpu() =~= old(self).cpu().counted(code));
        }
        let effect: CallEffect = match self.dispatch(code, arg1, arg2) {
            Ok(effect) => effect,
            Err(e) => {
                return Err(e);
            },
        };
        let a0: u32 = match effect.result {
            Some(v) => v,
            None => syscall_id,
        };
        self.set_reg(Register::V0.index(), a0);
        self.clk = self.clk + effect.extra;
        Ok(effect.next_pc)
    }

    /// Executes one operation, without its cost.
    pub fn execute_operation(&mut self, i: &Instruction) -> (r: Result<(), ExecutionError>)
        requires
            old(self).wf(),
            i.wf(),
            old(self).clk <= CLOCK_LIMIT + 0x100_0000,
            old(self).program.contains_pc(old(self).pc),
        ensures
            final(self).wf(),
            final(self).same_setup(old(self)),
            (final(self).cpu(), r) == old(self).cpu().operate(*old(self).program, *i),
            final(self).clk <= CLOCK_LIMIT + 0x100_0031,
    {
        reveal(Cpu::operate);
        let next_pc_in: u32 = self.next_pc;
        let next_next_pc: u32 = self.next_pc.wrapping_add(4);
        self.next_is_delayslot = false;
        let done: Result<(), ExecutionError> = match i.opcode.op_class() {
            OpClass::Alu => self.execute_alu(i),
            OpClass::Load => self.execute_load(i),
            OpClass::Store => self.execute_store(i),
            OpClass::Misc => self.execute_misc(i),
            OpClass::MovCond => {
                let prev_a: u32 = self.reg(i.op_a);
                let b: u32 = self.reg(i.op_b as u8);
                let c: u32 = self.reg(i.op_c as u8);
                let a: u32 = vm::condmov_result(i.opcode, prev_a, b, c);
                self.set_reg(i.op_a, a);
                Ok(())
            },
            OpClass::Branch => {
                let src1: u32 = self.reg(i.op_a);
                let src2: u32 = if i.opcode.only_one_operand() { 0 } else { self.reg(i.op_b as u8) };
                let target: u32 = if vm::branch_taken(i.opcode, src1, src2) {
                    vm::branch_target(next_pc_in, i.op_c)
                } else {
                    next_next_pc
                };
                self.next_is_delayslot = true;
                return self.advance(next_pc_in, target);
            },
            OpClass::Jump => {
                let (return_pc, target) = match i.opcode {
                    Opcode::Jump => {
                        let target_pc: u32 = self.reg(i.op_b as u8);
                        vm::jump_jr_result(next_pc_in, target_pc)
                    },
                    Opcode::Jumpi => vm::jump_jumpi_result(next_pc_in, i.op_b),
                    _ => vm::jump_direct_result(next_pc_in, i.op_b),
                };
                self.set_reg(i.op_a, return_pc);
                self.next_is_delayslot = true;
                return self.advance(next_pc_in, target);
            },
            OpClass::Syscall => {
                let pc: u32 = match self.execute_syscall() {
                    Ok(pc) => pc,
                    Err(e) => {
                        return Err(e);
                    },
                };
                self.pc = pc;
                self.next_pc = pc.wrapping_add(4);
                return Ok(());
            },
            OpClass::Unimplemented => {
                return Err(ExecutionError::UnsupportedInstruction(i.opcode.index()));
            },
        };
        match done {
            Err(e) => Err(e),
            Ok(()) => self.advance(next_pc_in, next_next_pc),
        }
    }

    /// Executes a store that looks at the word before it writes it.
    fn execute_looking_store(&mut self, i: &Instruction) -> (r: Result<(), ExecutionError>)
        requires
            old(self).wf(),
            i.wf(),
            i.opcode.class() == OpClass::Store,
        ensures
            final(self).wf(),
            final(self).same_setup(old(self)),
            (final(self).cpu(), r) == old(self).cpu().looking_store(*i),
    {
        let addr: u32 = self.reg(i.op_b as u8).wrapping_add(i.op_c);
        let rt: u32 = self.reg(i.op_a);
        let aligned: u32 = addr - addr % 4;
        if !is_addressable(aligned) {
            return Err(ExecutionError::MemoryOutOfBoundsAccess(addr as u64));
        }
        let mem: u32 = self.mem.mr_log_only(aligned);
        let value: u32 = match vm::store_value(i.opcode, addr, mem, rt) {
            Ok(value) => value,
            Err(e) => {
                return Err(e);
            },
        };
        if aligned as usize > MAX_MEMORY - 3 {
            return Err(ExecutionError::MemoryOutOfBoundsAccess(addr as u64));
        }
        self.mem.mw(aligned, value, self.clk);
        if matches!(i.opcode, Opcode::SC) {
            self.set_reg(i.op_a, 1);
        }
        Ok(())
    }

    /// Executes the system call at the current `pc` without counting it.
    fn execute_direct_syscall(&mut self) -> (r: Result<u32, ExecutionError>)
        requires
            old(self).wf(),
            old(self).clk <= CLOCK_LIMIT + 0x100_0000,
            old(self).program.contains_pc(old(self).pc),
        ensures
            final(self).wf(),
            final(self).same_setup(old(self)),
            (final(self).cpu(), r) == old(self).cpu().direct_syscall(*old(self).program),
            final(self).clk <= CLOCK_LIMIT + 0x100_0031,
    {
        let syscall_id: u32 = self.reg(Register::V0.index());
        let code: SyscallCode = SyscallCode::from_u32(syscall_id);
        let arg1: u32 = self.reg(Register::A0.index());
        let arg2: u32 = self.reg(Register::A1.index());
        if self.fork.is_some() && code != SyscallCode::WRITE && code
            != SyscallCode::EXIT_UNCONSTRAINED {
            return Err(ExecutionError::InvalidSyscallUsage(syscall_id as u64));
        }
        if code == SyscallCode::UNIMPLEMENTED {
            return Err(ExecutionError::UnsupportedSyscall(syscall_id));
        }
        let effect: CallEffect = match self.dispatch(code, arg1, arg2) {
            Ok(effect) => effect,
            Err(e) => {
                return Err(e);
            },
        };
        let result: u32 = if code == SyscallCode::EXIT_UNCONSTRAINED {
            self.reg(Register::V0.index())
        } else {
            match effect.result {
                Some(v) => v,
                None => syscall_id,
            }
        };
        self.set_reg(Register::V0.index(), result);
        self.clk = self.clk + effect.extra;
        Ok(effect.next_pc)
    }

    /// Executes one operation without counting it, without its cost.
    pub fn execute_direct_operation(&mut self, i: &Instruction) -> (r: Result<(), ExecutionError>)
        requires
            old(self).wf(),
            i.wf(),
            old(self).clk <= CLOCK_LIMIT + 0x100_0000,
            old(self).program.contains_pc(old(self).pc),
        ensures
            final(self).wf(),
            final(self).same_setup(old(self)),
            (final(self).cpu(), r) == old(self).cpu().direct_operate(*old(self).program, *i),
            final(self).clk <= CLOCK_LIMIT + 0x100_0031,
    {
        reveal(Cpu::direct_operate);
        match i.opcode.op_class() {
            OpClass::Store => {
                let next_pc_in: u32 = self.next_pc;
                self.next_is_delayslot = false;
                match self.execute_looking_store(i) {
                    Err(e) => Err(e),
                    Ok(()) => self.advance(next_pc_in, next_pc_in.wrapping_add(4)),
                }
            },
            OpClass::Syscall => {
                self.next_is_delayslot = false;
                let pc: u32 = match self.execute_direct_syscall() {
                    Ok(pc) => pc,
                    Err(e) => {
                        return Err(e);
                    },
                };
                if pc.wrapping_add(4) == 0 {
                    return Err(ExecutionError::NullPointerReference());
                }
                self.pc = pc;
                self.next_pc = pc.wrapping_add(4);
                Ok(())
            },
            OpClass::Unimplemented => {
                self.next_is_delayslot = false;
                Err(ExecutionError::UnsupportedInstruction(i.op_c))
            },
            _ => self.execute_operation(i),
        }
    }

    /// Executes the instruction at the current `pc`.
    pub fn execute_instruction(&mut self) -> (r: Result<(), ExecutionError>)
        requires
            old(self).wf(),
            old(self).program.contains_pc(old(self).pc),
        ensures
            final(self).wf(),
            final(self).program == old(self).program,
            final(self).max_syscall_cycles == old(self).max_syscall_cycles,
            (final(self).cpu(), r) == old(self).cpu().step(
                *old(self).program,
                old(self).max_syscall_cycles,
            ),
    {
        if self.clk > CLOCK_LIMIT || self.retired == u64::MAX {
            return Err(ExecutionError::ExceededCycleLimit(self.clk));
        }
        let i: Instruction = self.program.fetch(self.pc);
        let unconstrained: bool = self.fork.is_some();
        self.clk = vm::bump_clk_high_if_need(self.clk, self.max_syscall_cycles);
        proof {
            assert(i == self.program.instructions@[(self.pc.wrapping_sub(self.program.pc_base) / 4) as int]);
        }
        if let Err(e) = self.execute_operation(&i) {
            return Err(e);
        }
        self.clk = self.clk + 5;
        self.retired = self.retired + 1;
        if !unconstrained {
            let k: usize = i.opcode.index() as usize;
            let count: u64 = self.opcode_counts[k];
            self.opcode_counts.set(k, count.wrapping_add(1));
        }
        Ok(())
    }
}

} // verus!
