//! The machine in mathematical terms: what one instruction does to registers, memory and clock.
//!
//! The same semantics serve two memories. A live memory answers every access from its words and
//! appends the preimage of the accessed word to a log. A replayed memory answers the accesses from
//! such a log. [`replay_reproduces_a_run`] states that the two agree.
use vstd::prelude::*;

use crate::consts::MAX_MEMORY;
use crate::errors::ExecutionError;
use crate::events::{MemValue, MemoryRecord};
use crate::hook::Hook;
use crate::instruction::{self, Instruction};
use crate::keccak;
use crate::memory::{self, CowModel};
use crate::opcode::{OpClass, Opcode};
use crate::precompiles::{self, Precompile, Shape};
use crate::program::Program;
use crate::register::Register;
use crate::sha256;
use crate::syscalls::{SyscallCode, FD_HINT, FD_PUBLIC_VALUES, FD_STDERR, FD_STDOUT};
use crate::vm;

verus! {

/// The end of the address range that guest memory covers.
pub const ADDRESS_END: u32 = 0x7F01_0000;

/// The clock past which no instruction starts: the last one from which an instruction that jumps to
/// the next window and takes the most cycles of all still ends inside the range of the clock.
pub const CLOCK_LIMIT: u64 = 0xFFFF_FFFF_FEFF_FFC9;

/// Whether `n` words from `ptr` on lie in guest memory.
pub open spec fn words_fit(ptr: u32, n: nat) -> bool {
    n == 0 || ptr + 4 * (n - 1) < ADDRESS_END
}

/// Whether `n` bytes from `ptr` on lie in guest memory.
pub open spec fn bytes_fit(ptr: u32, n: nat) -> bool {
    n == 0 || ptr + (n - 1) < ADDRESS_END
}

/// The address of the word `i` places after `ptr`.
pub open spec fn word_at(ptr: u32, i: int) -> u32 {
    (ptr + 4 * i) as u32
}

/// A live memory.
#[verifier::ext_equal]
pub struct Ram {
    /// The words, and those at the fork if there is one.
    pub mem: CowModel<MemoryRecord>,
    /// The preimages of the accesses so far.
    pub log: Seq<MemValue>,
    /// The values that untouched words take on their first access.
    pub seeds: Map<int, u32>,
    /// The hints that wait to be read.
    pub input: Seq<Seq<u8>>,
    /// The hooks behind the file descriptors.
    pub hooks: Map<u32, Hook>,
    /// Whether looking at an untouched word sees its seed.
    pub eager: bool,
}

impl Ram {
    /// The record of a word, the seed standing for one that was never touched.
    pub open spec fn current(self, addr: u32) -> MemoryRecord {
        match memory::lookup(self.mem.seen, memory::slot(addr)) {
            Some(record) => record,
            None => MemoryRecord {
                value: if self.seeds.contains_key(memory::slot(addr)) {
                    self.seeds[memory::slot(addr)]
                } else {
                    0
                },
                timestamp: 0,
            },
        }
    }

    /// The record of a word that is looked at: zero stands for one that was never touched, unless
    /// seeds count.
    pub open spec fn plain(self, addr: u32) -> MemoryRecord {
        match memory::lookup(self.mem.seen, memory::slot(addr)) {
            Some(record) => record,
            None => if self.eager {
                self.current(addr)
            } else {
                MemoryRecord { value: 0, timestamp: 0 }
            },
        }
    }

    /// The word is bound to a record and the preimage is logged.
    pub open spec fn logged(self, addr: u32, record: MemoryRecord, preimage: MemoryRecord) -> Ram {
        Ram {
            mem: self.mem.written(memory::slot(addr), Some(record)),
            log: self.log.push(MemValue { clk: preimage.timestamp, value: preimage.value }),
            ..self
        }
    }
}

/// The words of a hint, zeros filling the last one.
pub open spec fn hint_word(bytes: Seq<u8>, i: int) -> u32 {
    let b = |k: int|
        if k < bytes.len() {
            bytes[k] as int
        } else {
            0
        };
    (b(4 * i) + 0x100 * b(4 * i + 1) + 0x1_0000 * b(4 * i + 2) + 0x100_0000 * b(4 * i + 3)) as u32
}

/// The number of words of a hint.
pub open spec fn hint_words(bytes: Seq<u8>) -> nat {
    ((bytes.len() + 3) / 4) as nat
}

/// The seeds after the first `n` words of a hint are placed at `ptr`, and whether none of them
/// was placed before.
pub open spec fn seeded(seeds: Map<int, u32>, ptr: u32, bytes: Seq<u8>, n: nat) -> (
    Map<int, u32>,
    bool,
)
    decreases n,
{
    if n == 0 {
        (seeds, true)
    } else {
        let (before, fresh) = seeded(seeds, ptr, bytes, (n - 1) as nat);
        let k = memory::slot(word_at(ptr, n - 1));
        if !fresh || before.contains_key(k) {
            (before, false)
        } else {
            (before.insert(k, hint_word(bytes, n - 1)), true)
        }
    }
}

/// The entries behind the first one.
pub open spec fn rest(left: Seq<MemValue>) -> Seq<MemValue> {
    if left.len() > 0 {
        left.skip(1)
    } else {
        left
    }
}

/// A memory as an instruction sees it.
#[verifier::ext_equal]
pub enum Bus {
    /// Memory proper.
    Live(Ram),
    /// The preimages still to come.
    Replay(Seq<MemValue>),
}

impl Bus {
    /// The preimage that the next access of a word sees.
    pub open spec fn entry(self, addr: u32) -> MemValue {
        match self {
            Bus::Live(ram) => MemValue {
                clk: ram.current(addr).timestamp,
                value: ram.current(addr).value,
            },
            Bus::Replay(left) => if left.len() > 0 {
                left[0]
            } else {
                MemValue { clk: 0, value: 0 }
            },
        }
    }

    /// The memory after a word is read.
    pub open spec fn read(self, addr: u32, clk: u64) -> Bus {
        match self {
            Bus::Live(ram) => Bus::Live(
                ram.logged(
                    addr,
                    MemoryRecord { value: ram.current(addr).value, timestamp: clk },
                    ram.current(addr),
                ),
            ),
            Bus::Replay(left) => Bus::Replay(rest(left)),
        }
    }

    /// The memory after a word is written.
    pub open spec fn write(self, addr: u32, value: u32, clk: u64) -> Bus {
        match self {
            Bus::Live(ram) => Bus::Live(
                ram.logged(addr, MemoryRecord { value, timestamp: clk }, ram.current(addr)),
            ),
            Bus::Replay(left) => Bus::Replay(rest(left)),
        }
    }

    /// The value of a word that is looked at: seeds do not count.
    pub open spec fn seen(self, addr: u32) -> u32 {
        match self {
            Bus::Live(ram) => ram.plain(addr).value,
            Bus::Replay(left) => if left.len() > 0 {
                left[0].value
            } else {
                0
            },
        }
    }

    /// The memory after a word is looked at: its timestamp stays.
    pub open spec fn look(self, addr: u32) -> Bus {
        match self {
            Bus::Live(ram) => Bus::Live(ram.logged(addr, ram.current(addr), ram.plain(addr))),
            Bus::Replay(left) => Bus::Replay(rest(left)),
        }
    }

    /// The value of a word that is about to be overwritten. A replayed memory finds it in the
    /// preimage of that write, `ahead` accesses away.
    pub open spec fn peek(self, addr: u32, ahead: nat) -> u32 {
        match self {
            Bus::Live(ram) => if memory::addressable(addr) {
                ram.current(addr).value
            } else {
                0
            },
            Bus::Replay(left) => if ahead < left.len() {
                left[ahead as int].value
            } else {
                0
            },
        }
    }

    /// The memory after a fork.
    pub open spec fn enter(self) -> Bus {
        match self {
            Bus::Live(ram) => Bus::Live(Ram { mem: ram.mem.forked(), ..ram }),
            Bus::Replay(left) => self,
        }
    }

    /// The memory after the fork is undone.
    pub open spec fn exit(self) -> Bus {
        match self {
            Bus::Live(ram) => Bus::Live(Ram { mem: ram.mem.discarded(), ..ram }),
            Bus::Replay(left) => self,
        }
    }

    /// The length of the next hint, which is logged too.
    pub open spec fn hint_len(self, clk: u64) -> (Bus, Result<u32, ExecutionError>) {
        match self {
            Bus::Live(ram) => if ram.input.len() == 0 {
                (self, Err(ExecutionError::InvalidSyscallArgs()))
            } else {
                let len = ram.input[0].len() as u32;
                (
                    Bus::Live(Ram { log: ram.log.push(MemValue { clk, value: len }), ..ram }),
                    Ok(len),
                )
            },
            Bus::Replay(left) => (Bus::Replay(rest(left)), Ok(self.seen(0))),
        }
    }

    /// The memory after the next hint is placed at `ptr`.
    pub open spec fn hint_read(self, ptr: u32, len: u32) -> (Bus, Result<(), ExecutionError>) {
        match self {
            Bus::Live(ram) => if ram.input.len() == 0 {
                (self, Err(ExecutionError::InvalidSyscallArgs()))
            } else {
                let bytes = ram.input[0];
                let popped = Ram { input: ram.input.skip(1), ..ram };
                if bytes.len() as u32 != len || ptr % 4 != 0 {
                    (Bus::Live(popped), Err(ExecutionError::InvalidSyscallArgs()))
                } else if !words_fit(ptr, hint_words(bytes)) {
                    (Bus::Live(popped), Err(ExecutionError::MemoryOutOfBoundsAccess(ptr as u64)))
                } else {
                    let (seeds, fresh) = seeded(ram.seeds, ptr, bytes, hint_words(bytes));
                    (
                        Bus::Live(Ram { seeds, ..popped }),
                        if fresh {
                            Ok(())
                        } else {
                            Err(ExecutionError::InvalidSyscallArgs())
                        },
                    )
                }
            },
            Bus::Replay(left) => (self, Ok(())),
        }
    }

    /// The memory after bytes are written to a file descriptor other than the public values: a
    /// hint waits in front of the others, a hook's answers do so too, anything else is dropped.
    pub open spec fn write_fd(self, fd: u32, bytes: Seq<u8>) -> (Bus, Result<(), ExecutionError>) {
        match self {
            Bus::Live(ram) => if fd == FD_STDOUT || fd == FD_STDERR {
                (self, Ok(()))
            } else if fd == FD_HINT {
                (Bus::Live(Ram { input: seq![bytes] + ram.input, ..ram }), Ok(()))
            } else if ram.hooks.contains_key(fd) {
                match ram.hooks[fd].response(bytes) {
                    Ok(lists) => (Bus::Live(Ram { input: lists + ram.input, ..ram }), Ok(())),
                    Err(e) => (self, Err(e)),
                }
            } else {
                (self, Ok(()))
            },
            Bus::Replay(left) => (self, Ok(())),
        }
    }

    /// The memory after `n` words are read, and the words.
    pub open spec fn read_many(self, ptr: u32, n: nat, clk: u64) -> (Bus, Seq<u32>)
        decreases n,
    {
        if n == 0 {
            (self, Seq::empty())
        } else {
            let (bus, words) = self.read_many(ptr, (n - 1) as nat, clk);
            let addr = word_at(ptr, n - 1);
            (bus.read(addr, clk), words.push(bus.entry(addr).value))
        }
    }

    /// The memory after the first `n` of the given words are written.
    pub open spec fn write_many(self, ptr: u32, words: Seq<u32>, n: nat, clk: u64) -> Bus
        decreases n,
    {
        if n == 0 {
            self
        } else {
            self.write_many(ptr, words, (n - 1) as nat, clk).write(
                word_at(ptr, n - 1),
                words[n - 1],
                clk,
            )
        }
    }

    /// The values of `n` words that are about to be overwritten.
    pub open spec fn peek_many(self, ptr: u32, n: nat, ahead: nat) -> Seq<u32> {
        Seq::new(n, |i: int| self.peek(word_at(ptr, i), (ahead + i) as nat))
    }

    /// The memory after `n` bytes are looked at, and the bytes.
    pub open spec fn look_bytes(self, ptr: u32, n: nat) -> (Bus, Seq<u8>)
        decreases n,
    {
        if n == 0 {
            (self, Seq::empty())
        } else {
            let (bus, bytes) = self.look_bytes(ptr, (n - 1) as nat);
            let addr = (ptr + (n - 1)) as u32;
            let word = (addr - addr % 4) as u32;
            (bus.look(word), bytes.push(vm::byte_of(bus.seen(word), addr % 4) as u8))
        }
    }

    /// The memory after the message schedule at `ptr` is extended up to word `n`.
    pub open spec fn extend_schedule(self, ptr: u32, n: nat, clk: u64) -> Bus
        decreases n,
    {
        if n <= 16 {
            self
        } else {
            let b0 = self.extend_schedule(ptr, (n - 1) as nat, clk);
            let i = n - 1;
            let b1 = b0.read(word_at(ptr, i - 15), clk);
            let b2 = b1.read(word_at(ptr, i - 2), clk);
            let b3 = b2.read(word_at(ptr, i - 16), clk);
            let b4 = b3.read(word_at(ptr, i - 7), clk);
            b4.write(
                word_at(ptr, i),
                sha256::schedule_word(
                    b0.entry(word_at(ptr, i - 15)).value,
                    b1.entry(word_at(ptr, i - 2)).value,
                    b2.entry(word_at(ptr, i - 16)).value,
                    b3.entry(word_at(ptr, i - 7)).value,
                ),
                clk,
            )
        }
    }
}

/// What an unconstrained block returns to.
#[verifier::ext_equal]
pub struct Fork {
    pub pc: u32,
    pub clk: u64,
    pub regs: Seq<u32>,
}

/// The machine.
#[verifier::ext_equal]
pub struct Cpu {
    pub regs: Seq<u32>,
    pub pc: u32,
    pub next_pc: u32,
    pub clk: u64,
    /// Whether the next instruction fills the delay slot of a branch or jump.
    pub delay: bool,
    pub exited: bool,
    /// The public values so far.
    pub output: Seq<u8>,
    /// Set inside an unconstrained block.
    pub fork: Option<Fork>,
    /// The number of instructions retired.
    pub retired: u64,
    /// How often each opcode retired outside unconstrained blocks.
    pub opcodes: Seq<u64>,
    /// How often each system call was made outside unconstrained blocks.
    pub syscalls: Seq<u64>,
    pub bus: Bus,
}

/// What a system call does besides its memory accesses.
pub struct Effect {
    pub next_pc: u32,
    /// The result, if it is not the number of the call.
    pub result: Option<u32>,
    /// The cycles beyond those of an ordinary instruction.
    pub extra: u64,
}

impl Cpu {
    /// The value of a register.
    pub open spec fn reg(self, r: u8) -> u32 {
        self.regs[r as int]
    }

    /// The machine after a register is written. The first register stays zero.
    pub open spec fn set(self, r: u8, value: u32) -> Cpu {
        Cpu {
            regs: self.regs.update(
                r as int,
                if r == 0 {
                    0
                } else {
                    value
                },
            ),
            ..self
        }
    }

    /// The machine with another memory.
    pub open spec fn with_bus(self, bus: Bus) -> Cpu {
        Cpu { bus, ..self }
    }

    /// Operand `b` of an arithmetic instruction.
    pub open spec fn alu_b(self, i: Instruction) -> u32 {
        if i.imm_b && i.imm_c {
            i.op_b
        } else {
            self.reg(instruction::reg_of(i.op_b))
        }
    }

    /// Operand `c` of an arithmetic instruction.
    pub open spec fn alu_c(self, i: Instruction) -> u32 {
        if i.imm_c {
            i.op_c
        } else {
            self.reg(instruction::reg_of(i.op_c))
        }
    }

    /// An arithmetic or logic instruction.
    pub open spec fn alu(self, i: Instruction) -> (Cpu, Result<(), ExecutionError>) {
        if vm::alu_traps(i.opcode, self.alu_c(i)) {
            (self, Err(ExecutionError::ExceptionOrTrap()))
        } else {
            let (a, hi) = vm::alu_result(i.opcode, self.alu_b(i), self.alu_c(i));
            if i.opcode.lo_hi() {
                (self.set(Register::LO.number(), a).set(Register::HI.number(), hi), Ok(()))
            } else {
                (self.set(i.op_a, a), Ok(()))
            }
        }
    }

    /// The address of a load or store.
    pub open spec fn address(self, i: Instruction) -> u32 {
        self.reg(instruction::reg_of(i.op_b)).wrapping_add(i.op_c)
    }

    /// A load.
    pub open spec fn load(self, i: Instruction) -> (Cpu, Result<(), ExecutionError>) {
        let addr = self.address(i);
        let aligned = (addr - addr % 4) as u32;
        let rt = self.reg(i.op_a);
        if aligned + 3 > MAX_MEMORY {
            (self, Err(ExecutionError::MemoryOutOfBoundsAccess(addr as u64)))
        } else {
            let mem = self.bus.entry(aligned).value;
            let after = self.with_bus(self.bus.read(aligned, self.clk));
            if vm::load_misaligned(i.opcode, addr) {
                (after, Err(ExecutionError::InvalidMemoryAccess(i.opcode, addr)))
            } else {
                (after.set(i.op_a, vm::loaded(i.opcode, addr, mem, rt)), Ok(()))
            }
        }
    }

    /// A store.
    pub open spec fn store(self, i: Instruction) -> (Cpu, Result<(), ExecutionError>) {
        let addr = self.address(i);
        let aligned = (addr - addr % 4) as u32;
        let rt = self.reg(i.op_a);
        let mem = self.bus.peek(aligned, 0);
        if vm::store_misaligned(i.opcode, addr) {
            (self, Err(ExecutionError::InvalidMemoryAccess(i.opcode, addr)))
        } else if aligned + 3 > MAX_MEMORY {
            (self, Err(ExecutionError::MemoryOutOfBoundsAccess(addr as u64)))
        } else {
            let after = self.with_bus(
                self.bus.write(aligned, vm::stored(i.opcode, addr, mem, rt), self.clk),
            );
            (
                if i.opcode is SC {
                    after.set(i.op_a, 1)
                } else {
                    after
                },
                Ok(()),
            )
        }
    }

    /// A bit-field, trap or multiply-accumulate instruction.
    pub open spec fn misc(self, i: Instruction) -> (Cpu, Result<(), ExecutionError>) {
        let b = self.reg(instruction::reg_of(i.op_b));
        let a = self.reg(i.op_a);
        match i.opcode {
            Opcode::WSBH => (self.set(i.op_a, vm::swap_halves_bytes(b)), Ok(())),
            Opcode::SEXT => (self.set(i.op_a, vm::sext_result(b, i.op_c)), Ok(())),
            Opcode::EXT => if vm::extract_traps(i.op_c) {
                (self, Err(ExecutionError::ExceptionOrTrap()))
            } else {
                (self.set(i.op_a, vm::extract(b, i.op_c)), Ok(()))
            },
            Opcode::INS => if vm::insert_traps(i.op_c) {
                (self, Err(ExecutionError::ExceptionOrTrap()))
            } else {
                (self.set(i.op_a, vm::inserted(a, b, i.op_c)), Ok(()))
            },
            Opcode::TEQ => if a == b {
                (self, Err(ExecutionError::ExceptionOrTrap()))
            } else {
                (self, Ok(()))
            },
            _ => {
                let (lo, hi) = vm::madd_result(
                    i.opcode,
                    b,
                    self.reg(instruction::reg_of(i.op_c)),
                    self.reg(Register::LO.number()),
                    self.reg(Register::HI.number()),
                );
                (self.set(i.op_a, lo).set(Register::HI.number(), hi), Ok(()))
            },
        }
    }

    /// The address after the delay slot of a branch.
    pub open spec fn branch(self, i: Instruction) -> u32 {
        let src1 = self.reg(i.op_a);
        let src2 = if i.opcode.one_operand() {
            0
        } else {
            self.reg(instruction::reg_of(i.op_b))
        };
        if vm::takes_branch(i.opcode, src1, src2) {
            vm::word(self.next_pc + i.op_c)
        } else {
            self.next_pc.wrapping_add(4)
        }
    }

    /// Return address and target of a jump.
    pub open spec fn jump(self, i: Instruction) -> (u32, u32) {
        let operand = if i.opcode is Jump {
            self.reg(instruction::reg_of(i.op_b))
        } else {
            i.op_b
        };
        vm::jump_result(i.opcode, self.next_pc, operand)
    }

    /// A conditional move.
    pub open spec fn mov_cond(self, i: Instruction) -> Cpu {
        self.set(
            i.op_a,
            vm::moved(
                i.opcode,
                self.reg(i.op_a),
                self.reg(instruction::reg_of(i.op_b)),
                self.reg(instruction::reg_of(i.op_c)),
            ),
        )
    }

    /// The machine after control passes on.
    pub open spec fn advance(self, pc: u32, next_pc: u32) -> (Cpu, Result<(), ExecutionError>) {
        if next_pc == 0 {
            (self, Err(ExecutionError::NullPointerReference()))
        } else {
            (Cpu { pc, next_pc, ..self }, Ok(()))
        }
    }

    /// An operation followed by the next instruction in line.
    pub open spec fn and_advance(self, done: (Cpu, Result<(), ExecutionError>)) -> (
        Cpu,
        Result<(), ExecutionError>,
    ) {
        match done.1 {
            Err(e) => done,
            Ok(()) => done.0.advance(self.next_pc, self.next_pc.wrapping_add(4)),
        }
    }

    /// One operation, without its cost.
    #[verifier::opaque]
    pub open spec fn operate(self, program: Program, i: Instruction) -> (
        Cpu,
        Result<(), ExecutionError>,
    ) {
        let c = Cpu { delay: false, ..self };
        match i.opcode.class() {
            OpClass::Alu => self.and_advance(c.alu(i)),
            OpClass::Load => self.and_advance(c.load(i)),
            OpClass::Store => self.and_advance(c.store(i)),
            OpClass::Misc => self.and_advance(c.misc(i)),
            OpClass::MovCond => self.and_advance((c.mov_cond(i), Ok(()))),
            OpClass::Branch => Cpu { delay: true, ..c }.advance(self.next_pc, c.branch(i)),
            OpClass::Jump => Cpu { delay: true, ..c.set(i.op_a, c.jump(i).0) }.advance(
                self.next_pc,
                c.jump(i).1,
            ),
            OpClass::Syscall => {
                let (after, r) = c.syscall(program);
                match r {
                    Err(e) => (after, Err(e)),
                    Ok(pc) => (
                        Cpu { pc, next_pc: pc.wrapping_add(4), ..after },
                        Ok(()),
                    ),
                }
            },
            OpClass::Unimplemented => (
                c,
                Err(ExecutionError::UnsupportedInstruction(i.opcode.ordinal())),
            ),
        }
    }

    /// A call counted, unless it is made inside an unconstrained block.
    pub open spec fn counted(self, code: SyscallCode) -> Cpu {
        if self.fork is Some {
            self
        } else {
            Cpu {
                syscalls: self.syscalls.update(
                    code.ordinal(),
                    self.syscalls[code.ordinal()].wrapping_add(1),
                ),
                ..self
            }
        }
    }

    /// A system call: the machine after it and where control goes.
    pub open spec fn syscall(self, program: Program) -> (Cpu, Result<u32, ExecutionError>) {
        let id = self.reg(Register::V0.number());
        let code = SyscallCode::decode(id);
        let arg1 = self.reg(Register::A0.number());
        let arg2 = self.reg(Register::A1.number());
        if self.fork is Some && code != SyscallCode::WRITE && code
            != SyscallCode::EXIT_UNCONSTRAINED {
            (self, Err(ExecutionError::InvalidSyscallUsage(id as u64)))
        } else {
            let (after, r) = self.counted(code).dispatch(program, code, arg1, arg2);
            match r {
                Err(e) => (after, Err(e)),
                Ok(effect) => {
                    let result = match effect.result {
                        Some(v) => v,
                        None => id,
                    };
                    let done = after.set(Register::V0.number(), result);
                    (
                        Cpu { clk: (done.clk + effect.extra) as u64, ..done },
                        Ok(effect.next_pc),
                    )
                },
            }
        }
    }

    /// The effect of a call that returns to the next instruction.
    pub open spec fn returning(self, result: Option<u32>, extra: u64) -> Effect {
        Effect { next_pc: self.pc.wrapping_add(4), result, extra }
    }

    /// A call that only sets its result and the error flag.
    pub open spec fn flagged(self, result: u32, flag: u32) -> (Cpu, Result<Effect, ExecutionError>) {
        (self.set(Register::A3.number(), flag), Ok(self.returning(Some(result), 0)))
    }

    /// What each system call does.
    #[verifier::opaque]
    pub open spec fn dispatch(self, program: Program, code: SyscallCode, arg1: u32, arg2: u32) -> (
        Cpu,
        Result<Effect, ExecutionError>,
    ) {
        match code {
            SyscallCode::HALT => self.halt(arg1),
            SyscallCode::WRITE => self.write_call(arg1, arg2),
            SyscallCode::SYSHINTLEN => self.hint_len_call(),
            SyscallCode::SYSHINTREAD => self.hint_read_call(arg1, arg2),
            SyscallCode::SYS_BRK => self.brk_call(program, arg1),
            SyscallCode::SHA_COMPRESS => self.sha_compress(arg1, arg2),
            SyscallCode::SHA_EXTEND => self.sha_extend(arg1),
            SyscallCode::KECCAK_SPONGE => self.keccak_sponge(arg1, arg2),
            SyscallCode::SYS_MMAP | SyscallCode::SYS_MMAP2 => self.mmap_call(arg1, arg2),
            SyscallCode::SYS_CLONE => self.flagged(1, 0),
            SyscallCode::SYS_EXT_GROUP => (
                self.set(Register::A3.number(), 0),
                Ok(Effect { next_pc: 0, result: Some(0), extra: 0 }),
            ),
            SyscallCode::SYS_FCNTL => self.flagged(
                vm::fcntl_values(arg1, arg2).0,
                vm::fcntl_values(arg1, arg2).1,
            ),
            SyscallCode::SYS_READ => self.flagged(vm::read_values(arg1).0, vm::read_values(arg1).1),
            SyscallCode::SYS_WRITE => self.sys_write(arg1, arg2),
            SyscallCode::SYS_OPEN
            | SyscallCode::SYS_CLOSE
            | SyscallCode::SYS_RT_SIGACTION
            | SyscallCode::SYS_RT_SIGPROCMASK
            | SyscallCode::SYS_MADVISE
            | SyscallCode::SYS_GETTID
            | SyscallCode::SYS_SCHED_GETAFFINITY
            | SyscallCode::SYS_CLOCK_GETTIME
            | SyscallCode::SYS_NANOSLEEP
            | SyscallCode::SYS_PRLIMIT64
            | SyscallCode::SYS_SIGALTSTACK
            | SyscallCode::SYS_OPENAT
            | SyscallCode::SYS_FSTAT64
            | SyscallCode::SYS_MUNMAP => self.flagged(0, 0),
            SyscallCode::ENTER_UNCONSTRAINED => self.enter_call(),
            SyscallCode::EXIT_UNCONSTRAINED => self.exit_call(),
            _ => match Precompile::of(code) {
                Some(op) => match op.shape() {
                    Shape::Binary => self.binary_call(op, arg1, arg2),
                    Shape::Unary => self.unary_call(op, arg1),
                    Shape::Decompress => self.decompress_call(op, arg1, arg2),
                    Shape::Modular => self.modular_call(arg1, arg2),
                    Shape::Wide => self.wide_call(arg1, arg2),
                },
                None => (self, Ok(self.returning(None, 0))),
            },
        }
    }

    /// Halts with an exit code; only zero is a success.
    pub open spec fn halt(self, exit_code: u32) -> (Cpu, Result<Effect, ExecutionError>) {
        if exit_code != 0 {
            (self, Err(ExecutionError::HaltWithNonZeroExitCode(exit_code)))
        } else {
            (
                Cpu { exited: true, ..self },
                Ok(Effect { next_pc: 0, result: None, extra: 0 }),
            )
        }
    }

    /// Writes bytes to a file descriptor.
    #[verifier::opaque]
    pub open spec fn write_call(self, fd: u32, buf: u32) -> (Cpu, Result<Effect, ExecutionError>) {
        let n = self.reg(Register::A2.number());
        if !bytes_fit(buf, n as nat) {
            (self, Err(ExecutionError::MemoryOutOfBoundsAccess(buf as u64)))
        } else {
            let (bus, bytes) = self.bus.look_bytes(buf, n as nat);
            let after = self.with_bus(bus);
            if fd == FD_PUBLIC_VALUES {
                (
                    Cpu { output: self.output + bytes, ..after },
                    Ok(self.returning(None, 0)),
                )
            } else {
                let (written, r) = bus.write_fd(fd, bytes);
                match r {
                    Err(e) => (after.with_bus(written), Err(e)),
                    Ok(()) => (after.with_bus(written), Ok(self.returning(None, 0))),
                }
            }
        }
    }

    /// The length of the next hint.
    #[verifier::opaque]
    pub open spec fn hint_len_call(self) -> (Cpu, Result<Effect, ExecutionError>) {
        let (bus, r) = self.bus.hint_len(self.clk);
        match r {
            Err(e) => (self.with_bus(bus), Err(e)),
            Ok(len) => (self.with_bus(bus), Ok(self.returning(Some(len), 0))),
        }
    }

    /// Places the next hint.
    pub open spec fn hint_read_call(self, ptr: u32, len: u32) -> (
        Cpu,
        Result<Effect, ExecutionError>,
    ) {
        let (bus, r) = self.bus.hint_read(ptr, len);
        match r {
            Err(e) => (self.with_bus(bus), Err(e)),
            Ok(()) => (self.with_bus(bus), Ok(self.returning(None, 0))),
        }
    }

    /// The break at the start of the program.
    pub open spec fn initial_brk(self, program: Program) -> u32 {
        let k = Register::BRK.number() as u32;
        if program.image@.contains_key(k) {
            program.image@[k]
        } else {
            self.reg(Register::BRK.number())
        }
    }

    /// Moves the break. The break is not kept: every call starts from the initial one.
    pub open spec fn brk_call(self, program: Program, requested: u32) -> (
        Cpu,
        Result<Effect, ExecutionError>,
    ) {
        let initial = self.initial_brk(program);
        match vm::brk_result(initial, initial, requested) {
            Err(e) => (self, Err(e)),
            Ok(v) => self.flagged(v, 0),
        }
    }

    /// Compresses the schedule at `w_ptr` into the state at `h_ptr`.
    #[verifier::opaque]
    pub open spec fn sha_compress(self, w_ptr: u32, h_ptr: u32) -> (
        Cpu,
        Result<Effect, ExecutionError>,
    ) {
        if !words_fit(h_ptr, 8) {
            (self, Err(ExecutionError::MemoryOutOfBoundsAccess(h_ptr as u64)))
        } else if !words_fit(w_ptr, 64) {
            (self, Err(ExecutionError::MemoryOutOfBoundsAccess(w_ptr as u64)))
        } else {
            let (b1, h) = self.bus.read_many(h_ptr, 8, self.clk);
            let (b2, w) = b1.read_many(w_ptr, 64, self.clk);
            let b3 = b2.write_many(h_ptr, sha256::compressed(h, w), 8, self.clk);
            (self.with_bus(b3), Ok(self.returning(None, 1)))
        }
    }

    /// Extends the schedule at `w_ptr` from 16 to 64 words.
    #[verifier::opaque]
    pub open spec fn sha_extend(self, w_ptr: u32) -> (Cpu, Result<Effect, ExecutionError>) {
        if !words_fit(w_ptr, 64) {
            (self, Err(ExecutionError::MemoryOutOfBoundsAccess(w_ptr as u64)))
        } else {
            (
                self.with_bus(self.bus.extend_schedule(w_ptr, 64, self.clk)),
                Ok(self.returning(None, 48)),
            )
        }
    }

    /// Hashes the words at `input_ptr`; their number lies behind the 16 result words.
    #[verifier::opaque]
    pub open spec fn keccak_sponge(self, input_ptr: u32, result_ptr: u32) -> (
        Cpu,
        Result<Effect, ExecutionError>,
    ) {
        if !words_fit(result_ptr, 17) {
            (self, Err(ExecutionError::MemoryOutOfBoundsAccess(result_ptr as u64)))
        } else {
            let len = self.bus.entry(word_at(result_ptr, 16)).value;
            let b1 = self.bus.read(word_at(result_ptr, 16), self.clk);
            if !words_fit(input_ptr, len as nat) {
                (
                    self.with_bus(b1),
                    Err(ExecutionError::MemoryOutOfBoundsAccess(input_ptr as u64)),
                )
            } else {
                let (b2, words) = b1.read_many(input_ptr, len as nat, self.clk);
                let out = keccak::squeezed(keccak::sponge(words));
                let b3 = b2.write_many(result_ptr, out, 16, self.clk);
                (self.with_bus(b3), Ok(self.returning(None, 1)))
            }
        }
    }

    /// Maps memory: at the given address, or at the heap if that is zero.
    pub open spec fn mmap_call(self, addr: u32, len: u32) -> (Cpu, Result<Effect, ExecutionError>) {
        match vm::aligned_size(len) {
            Err(e) => (self, Err(e)),
            Ok(size) => if addr == 0 {
                let heap = self.reg(Register::HEAP.number());
                self.set(Register::HEAP.number(), heap.wrapping_add(size)).flagged(heap, 0)
            } else {
                self.flagged(addr, 0)
            },
        }
    }

    /// Writes bytes to a file descriptor; only the public values are kept.
    #[verifier::opaque]
    pub open spec fn sys_write(self, fd: u32, buf: u32) -> (Cpu, Result<Effect, ExecutionError>) {
        let n = self.reg(Register::A2.number());
        if !bytes_fit(buf, n as nat) {
            (self, Err(ExecutionError::MemoryOutOfBoundsAccess(buf as u64)))
        } else {
            let (bus, bytes) = self.bus.look_bytes(buf, n as nat);
            let after = Cpu {
                output: if fd == FD_PUBLIC_VALUES {
                    self.output + bytes
                } else {
                    self.output
                },
                ..self.with_bus(bus)
            };
            after.flagged(n, 0)
        }
    }

    /// Enters an unconstrained block.
    pub open spec fn enter_call(self) -> (Cpu, Result<Effect, ExecutionError>) {
        (
            Cpu {
                fork: Some(Fork { pc: self.pc, clk: self.clk, regs: self.regs }),
                bus: self.bus.enter(),
                ..self
            },
            Ok(self.returning(Some(1), 0)),
        )
    }

    /// Leaves an unconstrained block: registers, clock and memory are those at its start, and
    /// control goes behind the call that entered it.
    pub open spec fn exit_call(self) -> (Cpu, Result<Effect, ExecutionError>) {
        match self.fork {
            None => (self, Ok(self.returning(Some(0), 0))),
            Some(fork) => (
                Cpu {
                    regs: fork.regs,
                    clk: fork.clk,
                    pc: fork.pc,
                    fork: None,
                    bus: self.bus.exit(),
                    ..self
                },
                Ok(Effect { next_pc: fork.pc.wrapping_add(4), result: Some(0), extra: 0 }),
            ),
        }
    }

    /// Replaces the operand at `x_ptr`, using the one at `y_ptr`.
    #[verifier::opaque]
    pub open spec fn binary_call(self, op: Precompile, x_ptr: u32, y_ptr: u32) -> (
        Cpu,
        Result<Effect, ExecutionError>,
    ) {
        let n = op.width();
        if !words_fit(x_ptr, n) {
            (self, Err(ExecutionError::MemoryOutOfBoundsAccess(x_ptr as u64)))
        } else if !words_fit(y_ptr, n) {
            (self, Err(ExecutionError::MemoryOutOfBoundsAccess(y_ptr as u64)))
        } else {
            let x = self.bus.peek_many(x_ptr, n, n);
            let (b1, y) = self.bus.read_many(y_ptr, n, self.clk);
            let clk = (self.clk + 1) as u64;
            let b2 = b1.write_many(x_ptr, op.binary(x, y), n, clk);
            (Cpu { clk, bus: b2, ..self }, Ok(self.returning(None, 0)))
        }
    }

    /// Replaces the operand at `x_ptr`.
    #[verifier::opaque]
    pub open spec fn unary_call(self, op: Precompile, x_ptr: u32) -> (
        Cpu,
        Result<Effect, ExecutionError>,
    ) {
        let n = op.width();
        if !words_fit(x_ptr, n) {
            (self, Err(ExecutionError::MemoryOutOfBoundsAccess(x_ptr as u64)))
        } else {
            let x = self.bus.peek_many(x_ptr, n, 0);
            let b1 = self.bus.write_many(x_ptr, op.unary(x), n, self.clk);
            (self.with_bus(b1), Ok(self.returning(None, 0)))
        }
    }

    /// Computes the missing coordinate of the point at `ptr`.
    #[verifier::opaque]
    pub open spec fn decompress_call(self, op: Precompile, ptr: u32, sign: u32) -> (
        Cpu,
        Result<Effect, ExecutionError>,
    ) {
        let n = op.width();
        if !words_fit(ptr, 2 * n) {
            (self, Err(ExecutionError::MemoryOutOfBoundsAccess(ptr as u64)))
        } else {
            let (b1, x) = self.bus.read_many(word_at(ptr, n as int), n, self.clk);
            match op.coordinate(x, sign) {
                Err(e) => (self.with_bus(b1), Err(ExecutionError::CurveError(e))),
                Ok(y) => (
                    self.with_bus(b1.write_many(ptr, y, n, self.clk)),
                    Ok(self.returning(None, 0)),
                ),
            }
        }
    }

    /// Multiplies modulo the number behind the second operand.
    #[verifier::opaque]
    pub open spec fn modular_call(self, x_ptr: u32, y_ptr: u32) -> (
        Cpu,
        Result<Effect, ExecutionError>,
    ) {
        if !words_fit(x_ptr, 8) {
            (self, Err(ExecutionError::MemoryOutOfBoundsAccess(x_ptr as u64)))
        } else if !words_fit(y_ptr, 16) {
            (self, Err(ExecutionError::MemoryOutOfBoundsAccess(y_ptr as u64)))
        } else {
            let x = self.bus.peek_many(x_ptr, 8, 16);
            let (b1, y) = self.bus.read_many(y_ptr, 8, self.clk);
            let (b2, m) = b1.read_many(word_at(y_ptr, 8), 8, self.clk);
            let clk = (self.clk + 1) as u64;
            let b3 = b2.write_many(x_ptr, precompiles::modular_product(x, y, m), 8, clk);
            (Cpu { clk, bus: b3, ..self }, Ok(self.returning(None, 0)))
        }
    }

    /// Multiplies into the two results whose addresses are further arguments.
    #[verifier::opaque]
    pub open spec fn wide_call(self, a_ptr: u32, b_ptr: u32) -> (
        Cpu,
        Result<Effect, ExecutionError>,
    ) {
        let lo_ptr = self.reg(Register::A2.number());
        let hi_ptr = self.reg(Register::A3.number());
        if !words_fit(a_ptr, 8) {
            (self, Err(ExecutionError::MemoryOutOfBoundsAccess(a_ptr as u64)))
        } else if !words_fit(b_ptr, 64) {
            (self, Err(ExecutionError::MemoryOutOfBoundsAccess(b_ptr as u64)))
        } else if !words_fit(lo_ptr, 64) {
            (self, Err(ExecutionError::MemoryOutOfBoundsAccess(lo_ptr as u64)))
        } else if !words_fit(hi_ptr, 8) {
            (self, Err(ExecutionError::MemoryOutOfBoundsAccess(hi_ptr as u64)))
        } else {
            let (b1, a) = self.bus.read_many(a_ptr, 8, self.clk);
            let (b2, b) = b1.read_many(b_ptr, 64, self.clk);
            let clk = (self.clk + 1) as u64;
            let (lo, hi) = precompiles::wide_product(a, b);
            let b3 = b2.write_many(lo_ptr, lo, 64, clk);
            let b4 = b3.write_many(hi_ptr, hi, 8, clk);
            (Cpu { clk, bus: b4, ..self }, Ok(self.returning(None, 0)))
        }
    }

    /// A store that looks at the word before it writes it, so that both accesses are logged.
    pub open spec fn looking_store(self, i: Instruction) -> (Cpu, Result<(), ExecutionError>) {
        let addr = self.address(i);
        let aligned = (addr - addr % 4) as u32;
        let rt = self.reg(i.op_a);
        if !memory::addressable(aligned) {
            (self, Err(ExecutionError::MemoryOutOfBoundsAccess(addr as u64)))
        } else {
            let mem = self.bus.seen(aligned);
            let looked = self.with_bus(self.bus.look(aligned));
            if vm::store_misaligned(i.opcode, addr) {
                (looked, Err(ExecutionError::InvalidMemoryAccess(i.opcode, addr)))
            } else if aligned + 3 > MAX_MEMORY {
                (looked, Err(ExecutionError::MemoryOutOfBoundsAccess(addr as u64)))
            } else {
                let after = looked.with_bus(
                    looked.bus.write(aligned, vm::stored(i.opcode, addr, mem, rt), self.clk),
                );
                (
                    if i.opcode is SC {
                        after.set(i.op_a, 1)
                    } else {
                        after
                    },
                    Ok(()),
                )
            }
        }
    }

    /// A system call of the engine that keeps no counts: a call that does not exist is an error,
    /// and leaving a block keeps the result register that the block was entered with.
    pub open spec fn direct_syscall(self, program: Program) -> (Cpu, Result<u32, ExecutionError>) {
        let id = self.reg(Register::V0.number());
        let code = SyscallCode::decode(id);
        let arg1 = self.reg(Register::A0.number());
        let arg2 = self.reg(Register::A1.number());
        if self.fork is Some && code != SyscallCode::WRITE && code
            != SyscallCode::EXIT_UNCONSTRAINED {
            (self, Err(ExecutionError::InvalidSyscallUsage(id as u64)))
        } else if code == SyscallCode::UNIMPLEMENTED {
            (self, Err(ExecutionError::UnsupportedSyscall(id)))
        } else {
            let (after, r) = self.dispatch(program, code, arg1, arg2);
            match r {
                Err(e) => (after, Err(e)),
                Ok(effect) => {
                    let result = if code == SyscallCode::EXIT_UNCONSTRAINED {
                        after.reg(Register::V0.number())
                    } else {
                        match effect.result {
                            Some(v) => v,
                            None => id,
                        }
                    };
                    let done = after.set(Register::V0.number(), result);
                    (
                        Cpu { clk: (done.clk + effect.extra) as u64, ..done },
                        Ok(effect.next_pc),
                    )
                },
            }
        }
    }

    /// One operation of the engine that keeps no counts, without its cost.
    #[verifier::opaque]
    pub open spec fn direct_operate(self, program: Program, i: Instruction) -> (
        Cpu,
        Result<(), ExecutionError>,
    ) {
        let c = Cpu { delay: false, ..self };
        match i.opcode.class() {
            OpClass::Store => self.and_advance(c.looking_store(i)),
            OpClass::Syscall => {
                let (after, r) = c.direct_syscall(program);
                match r {
                    Err(e) => (after, Err(e)),
                    Ok(pc) => if pc.wrapping_add(4) == 0 {
                        (after, Err(ExecutionError::NullPointerReference()))
                    } else {
                        (Cpu { pc, next_pc: pc.wrapping_add(4), ..after }, Ok(()))
                    },
                }
            },
            OpClass::Unimplemented => (c, Err(ExecutionError::UnsupportedInstruction(i.op_c))),
            _ => self.operate(program, i),
        }
    }

    /// An instruction counted, unless it retires inside an unconstrained block.
    pub open spec fn tallied(self, opcode: Opcode, unconstrained: bool) -> Cpu {
        Cpu {
            retired: (self.retired + 1) as u64,
            opcodes: if unconstrained {
                self.opcodes
            } else {
                self.opcodes.update(
                    opcode.ordinal() as int,
                    self.opcodes[opcode.ordinal() as int].wrapping_add(1),
                )
            },
            clk: (self.clk + 5) as u64,
            ..self
        }
    }

    /// One instruction.
    pub open spec fn step(self, program: Program, max_syscall_cycles: u32) -> (
        Cpu,
        Result<(), ExecutionError>,
    ) {
        if self.clk > CLOCK_LIMIT || self.retired == u64::MAX {
            (self, Err(ExecutionError::ExceededCycleLimit(self.clk)))
        } else {
            let i = program.at(self.pc);
            let start = Cpu { clk: vm::bumped_clk(self.clk, max_syscall_cycles) as u64, ..self };
            let (after, r) = start.operate(program, i);
            match r {
                Err(e) => (after, Err(e)),
                Ok(()) => (after.tallied(i.opcode, self.fork is Some), Ok(())),
            }
        }
    }

    /// Whether the program has ended.
    pub open spec fn done(self, program: Program) -> bool {
        self.pc == 0 || self.exited || !program.contains_pc(self.pc)
    }

    /// The machine after `n` instructions, if none of them failed.
    pub open spec fn steps(self, program: Program, max_syscall_cycles: u32, n: nat) -> Option<Cpu>
        decreases n,
    {
        if n == 0 {
            Some(self)
        } else {
            match self.steps(program, max_syscall_cycles, (n - 1) as nat) {
                None => None,
                Some(c) => match c.step(program, max_syscall_cycles).1 {
                    Ok(()) => Some(c.step(program, max_syscall_cycles).0),
                    Err(_) => None,
                },
            }
        }
    }
}

} // verus!
