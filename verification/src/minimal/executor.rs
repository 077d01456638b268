//! The runner's engine: executes a program on live memory, keeps the time of the last access of
//! every register, and logs the preimage of every memory access.
use std::sync::Arc;

use vstd::prelude::*;

use crate::collections::DiffMap;
use crate::core_vm::{CoreVM, ForkPoint, MemSource};
use crate::errors::ExecutionError;
use crate::events::{MemValue, MemoryAccessPosition, MemoryRecord};
use crate::instruction::{self, Instruction};
use crate::globals::{self, list_records};
use crate::hook;
use crate::machine::{Bus, Cpu, Ram, CLOCK_LIMIT};
use crate::memory::{self, CowModel, PagedMemory};
use crate::minimal::console::{self, Console};
use crate::minimal::diff_memory::DiffMemory;
use crate::minimal::{self, listed_image};
use crate::opcode::{OpClass, Opcode, NUM_OPCODES};
use crate::precompiles::Precompile;
use crate::program::Program;
use crate::register::{Register, NUM_REGISTERS};
use crate::syscalls::{SyscallCode, MAX_SYSCALL_CYCLES, NUM_SYSCALLS};

verus! {

/// An access of a register: at a position within the instruction, or a mere look, which leaves
/// the time of the last access alone.
#[derive(Clone, Copy, Debug, PartialEq, Eq, Structural)]
pub struct RegisterAccess {
    pub register: u8,
    pub position: Option<MemoryAccessPosition>,
}

/// An access at a position.
pub open spec fn at(register: u8, position: MemoryAccessPosition) -> RegisterAccess {
    RegisterAccess { register, position: Some(position) }
}

/// A mere look.
pub open spec fn look(register: u8) -> RegisterAccess {
    RegisterAccess { register, position: None }
}

/// The register accesses of an instruction that is not a system call, in order.
pub open spec fn register_accesses(i: Instruction) -> Seq<RegisterAccess> {
    let a = at(i.op_a, MemoryAccessPosition::A);
    let b = at(instruction::reg_of(i.op_b), MemoryAccessPosition::B);
    let c = at(instruction::reg_of(i.op_c), MemoryAccessPosition::C);
    let hi = at(Register::HI.number(), MemoryAccessPosition::HI);
    match i.opcode.class() {
        OpClass::Alu => {
            let read = if !i.imm_c {
                seq![c, b]
            } else if !i.imm_b {
                seq![b]
            } else {
                Seq::empty()
            };
            if i.opcode.lo_hi() {
                read.push(at(Register::LO.number(), MemoryAccessPosition::A)).push(hi)
            } else {
                read.push(a)
            }
        },
        OpClass::Load => seq![b, look(i.op_a), a],
        OpClass::Store => if i.opcode is SC {
            seq![b, look(i.op_a), a]
        } else {
            seq![b, a]
        },
        OpClass::Branch => if i.opcode.one_operand() {
            seq![a]
        } else {
            seq![b, a]
        },
        OpClass::Jump => if i.opcode is Jump {
            seq![b, a]
        } else {
            seq![a]
        },
        OpClass::MovCond => seq![look(i.op_a), c, b, a],
        OpClass::Misc => match i.opcode {
            Opcode::INS => seq![b, look(i.op_a), a],
            Opcode::MADDU | Opcode::MSUBU | Opcode::MADD | Opcode::MSUB => seq![
                c,
                b,
                look(Register::LO.number()),
                look(Register::HI.number()),
                a,
                hi,
            ],
            _ => seq![b, a],
        },
        _ => Seq::empty(),
    }
}

/// The registers that a system call itself writes or looks at.
pub open spec fn call_accesses(code: SyscallCode, arg1: u32) -> Seq<RegisterAccess> {
    let flag = at(Register::A3.number(), MemoryAccessPosition::Memory);
    match code {
        SyscallCode::WRITE => seq![look(Register::A2.number())],
        SyscallCode::SYS_WRITE => seq![look(Register::A2.number()), flag],
        SyscallCode::SYS_MMAP | SyscallCode::SYS_MMAP2 => if arg1 == 0 {
            seq![at(Register::HEAP.number(), MemoryAccessPosition::Memory), flag]
        } else {
            seq![flag]
        },
        SyscallCode::SYS_BRK
        | SyscallCode::SYS_CLONE
        | SyscallCode::SYS_EXT_GROUP
        | SyscallCode::SYS_FCNTL
        | SyscallCode::SYS_READ
        | SyscallCode::SYS_OPEN
        | SyscallCode::SYS_CLOSE
        | SyscallCode::SYS_RT_SIGACTION
        | SyscallCode::SYS_RT_SIGPROCMASK
        | SyscallCode::SYS_MADVISE
        | SyscallCode::SYS_GETTID
        | SyscallCode::SYS_SCHED_GETAFFINITY
        | SyscallCode::SYS_CLOCK_GETTIME
        | SyscallCode::SYS_NANOSLEEP
        | SyscallCode::SYS_PRLIMIT64
        | SyscallCode::SYS_SIGALTSTACK
        | SyscallCode::SYS_OPENAT
        | SyscallCode::SYS_FSTAT64
        | SyscallCode::SYS_MUNMAP => seq![flag],
        _ => Seq::empty(),
    }
}

/// Registers and their times of access, with everything that an unconstrained block goes back to.
#[verifier::ext_equal]
pub struct Times {
    /// The time of the last access of each register.
    pub stamps: Seq<u64>,
    /// Whether each register was ever accessed or loaded.
    pub touched: Seq<bool>,
    /// The times at the start of the unconstrained block, if one is open.
    pub saved: Option<Seq<u64>>,
}

impl Times {
    /// The times after an access.
    pub open spec fn accessed(self, access: RegisterAccess, clk: u64) -> Times {
        Times {
            stamps: match access.position {
                Some(position) => self.stamps.update(
                    access.register as int,
                    (clk + position.offset()) as u64,
                ),
                None => self.stamps,
            },
            touched: self.touched.update(access.register as int, true),
            saved: self.saved,
        }
    }

    /// The times after the first `n` of a list of accesses.
    pub open spec fn accessed_all(self, list: Seq<RegisterAccess>, clk: u64, n: nat) -> Times
        decreases n,
    {
        if n == 0 {
            self
        } else {
            self.accessed_all(list, clk, (n - 1) as nat).accessed(list[n - 1], clk)
        }
    }

    /// The times after the given accesses.
    pub open spec fn after(self, list: Seq<RegisterAccess>, clk: u64) -> Times {
        self.accessed_all(list, clk, list.len())
    }

    /// The times when an unconstrained block is entered.
    pub open spec fn entered(self) -> Times {
        Times { saved: Some(self.stamps), ..self }
    }

    /// The times when an unconstrained block is left, if one is open.
    pub open spec fn left(self) -> Times {
        match self.saved {
            Some(stamps) => Times { stamps, touched: self.touched, saved: None },
            None => self,
        }
    }
}

/// The accesses of a system call before it takes effect.
pub open spec fn call_prologue(code: SyscallCode, arg1: u32) -> Seq<RegisterAccess> {
    seq![
        look(Register::V0.number()),
        at(Register::A1.number(), MemoryAccessPosition::C),
        at(Register::A0.number(), MemoryAccessPosition::B),
    ] + call_accesses(code, arg1)
}

/// How many of the register accesses of an instruction that is not a system call come behind the
/// point at which it can fail: those of what it writes.
pub open spec fn late_accesses(i: Instruction) -> nat {
    match i.opcode.class() {
        OpClass::Alu => if i.opcode.lo_hi() {
            2
        } else {
            1
        },
        OpClass::Load => 1,
        OpClass::Store => if i.opcode is SC {
            1
        } else {
            0
        },
        OpClass::Misc => if i.opcode is TEQ {
            0
        } else {
            1
        },
        _ => 0,
    }
}

/// The register accesses that an instruction makes before it fails.
pub open spec fn early_accesses(c: Cpu, i: Instruction) -> Seq<RegisterAccess> {
    if i.opcode.class() == OpClass::Syscall {
        let code = SyscallCode::decode(c.reg(Register::V0.number()));
        let args = seq![
            look(Register::V0.number()),
            at(Register::A1.number(), MemoryAccessPosition::C),
            at(Register::A0.number(), MemoryAccessPosition::B),
        ];
        if code == SyscallCode::WRITE || code == SyscallCode::SYS_WRITE && c.fork is None {
            args.push(look(Register::A2.number()))
        } else {
            args
        }
    } else {
        register_accesses(i).take(register_accesses(i).len() - late_accesses(i))
    }
}

/// An engine in mathematical terms.
#[verifier::ext_equal]
pub struct Engine {
    pub cpu: Cpu,
    pub times: Times,
    /// The number of instructions retired outside unconstrained blocks, or inside the open one.
    pub global_clk: u64,
    /// That number at the start of the block that is open.
    pub saved_global_clk: u64,
}

impl Engine {
    /// The engine after an instruction whose effect on the machine is `cpu`.
    pub open spec fn retired(self, i: Instruction, cpu: Cpu) -> Engine {
        let c = self.cpu;
        let code = SyscallCode::decode(c.reg(Register::V0.number()));
        let after = Cpu {
            clk: (cpu.clk + 5) as u64,
            retired: (c.retired + 1) as u64,
            ..cpu
        };
        if i.opcode.class() == OpClass::Syscall {
            let started = self.times.after(
                call_prologue(code, c.reg(Register::A0.number())),
                c.clk,
            );
            let result = seq![at(Register::V0.number(), MemoryAccessPosition::A)];
            match (code, c.fork) {
                (SyscallCode::ENTER_UNCONSTRAINED, _) => Engine {
                    cpu: after,
                    times: started.entered().after(result, c.clk),
                    global_clk: (self.global_clk + 1) as u64,
                    saved_global_clk: self.global_clk,
                },
                (SyscallCode::EXIT_UNCONSTRAINED, Some(fork)) => Engine {
                    cpu: after,
                    times: started.left().after(result, fork.clk),
                    global_clk: (self.saved_global_clk + 1) as u64,
                    saved_global_clk: self.saved_global_clk,
                },
                _ => Engine {
                    cpu: after,
                    times: started.after(result, c.clk),
                    global_clk: (self.global_clk + 1) as u64,
                    ..self
                },
            }
        } else {
            Engine {
                cpu: after,
                times: self.times.after(register_accesses(i), c.clk),
                global_clk: (self.global_clk + 1) as u64,
                ..self
            }
        }
    }

    /// The engine after an instruction that fails, its effect on the machine being `cpu`. One that
    /// would pass control on to address zero fails when everything else is done; the others fail
    /// before they write a register.
    pub open spec fn failed(self, i: Instruction, cpu: Cpu, e: ExecutionError) -> Engine {
        if e == ExecutionError::NullPointerReference() {
            let done = self.retired(i, cpu);
            Engine { cpu, global_clk: (done.global_clk - 1) as u64, ..done }
        } else {
            Engine {
                cpu,
                times: self.times.after(early_accesses(self.cpu, i), self.cpu.clk),
                ..self
            }
        }
    }

    /// Whether a clock or counter has reached its end.
    pub open spec fn at_limit(self) -> bool {
        self.cpu.clk > CLOCK_LIMIT || self.global_clk == u64::MAX || self.cpu.retired == u64::MAX
    }

    /// The engine after an instruction, if it does not fail.
    pub open spec fn stepped(self, program: Program) -> Option<Engine> {
        let i = program.at(self.cpu.pc);
        let (c, done) = self.cpu.direct_operate(program, i);
        let end = self.retired(i, c);
        if self.at_limit() || done is Err || end.cpu.done(program) && end.cpu.fork is Some {
            None
        } else {
            Some(end)
        }
    }

    /// The engine after `n` instructions, if none of them fails.
    pub open spec fn after(self, program: Program, n: nat) -> Option<Engine>
        decreases n,
    {
        if n == 0 {
            Some(self)
        } else {
            match self.after(program, (n - 1) as nat) {
                None => None,
                Some(e) => e.stepped(program),
            }
        }
    }

    /// What an instruction does.
    pub open spec fn steps_to(
        self,
        program: Program,
        end: Engine,
        r: Result<bool, ExecutionError>,
    ) -> bool {
        if self.at_limit() {
            end == self && r == Err::<bool, _>(ExecutionError::ExceededCycleLimit(self.cpu.clk))
        } else {
            let i = program.at(self.cpu.pc);
            let (c, done) = self.cpu.direct_operate(program, i);
            match done {
                Err(e) => end == self.failed(i, c, e) && r == Err::<bool, _>(e),
                Ok(()) => end == self.retired(i, c) && r == (if end.cpu.done(program)
                    && end.cpu.fork is Some {
                    Err(ExecutionError::EndInUnconstrained())
                } else {
                    Ok(end.cpu.done(program))
                }),
            }
        }
    }
}

/// A machine with another live memory.
pub open spec fn with_ram(c: Cpu, ram: Ram) -> Cpu {
    c.with_bus(Bus::Live(ram))
}

/// The record of a register, if it was ever accessed or loaded.
pub open spec fn register_end(e: Engine, k: int) -> Option<MemoryRecord> {
    if e.times.touched[k] {
        Some(MemoryRecord { value: e.cpu.regs[k], timestamp: e.times.stamps[k] })
    } else {
        None
    }
}

/// A list with the values that were noted put back.
pub open spec fn stamps_reverted(stamps: Seq<u64>, diff: Map<u32, Option<(u64, u32)>>) -> Seq<u64> {
    Seq::new(
        stamps.len(),
        |k: int|
            if diff.contains_key(k as u32) {
                diff[k as u32]->Some_0.0
            } else {
                stamps[k]
            },
    )
}

/// Every noted place is a register and held something.
pub open spec fn register_diff_ok(diff: Map<u32, Option<(u64, u32)>>) -> bool {
    forall|k: u32| #[trigger] diff.contains_key(k) ==> k < NUM_REGISTERS && diff[k] is Some
}

/// An engine at the start of a program, nothing loaded yet.
pub open spec fn fresh(program: Program) -> Engine {
    Engine {
        cpu: Cpu {
            regs: Seq::new(NUM_REGISTERS as nat, |i: int| 0u32),
            pc: program.pc_start,
            next_pc: program.next_pc,
            clk: 1,
            delay: false,
            exited: false,
            output: Seq::empty(),
            fork: None,
            retired: 0,
            opcodes: Seq::new(NUM_OPCODES as nat, |i: int| 0u64),
            syscalls: Seq::new(NUM_SYSCALLS as nat, |i: int| 0u64),
            bus: Bus::Live(
                Ram {
                    mem: CowModel { seen: Map::empty(), saved: None },
                    log: Seq::empty(),
                    seeds: Map::empty(),
                    input: Seq::empty(),
                    hooks: Map::empty(),
                    eager: true,
                },
            ),
        },
        times: Times {
            stamps: Seq::new(NUM_REGISTERS as nat, |i: int| 0u64),
            touched: Seq::new(NUM_REGISTERS as nat, |i: int| false),
            saved: None,
        },
        global_clk: 0,
        saved_global_clk: 0,
    }
}

/// The engine.
pub struct MinimalExecutor {
    core: CoreVM<DiffMemory>,
    stamps: [u64; 36],
    touched: [bool; 36],
    /// What every register held when the open unconstrained block first accessed it.
    unconstrained_reg_diff: Option<DiffMap>,
    global_clk: u64,
    saved_global_clk: u64,
    /// What the program prints and tracks.
    console: Console,
}

impl MinimalExecutor {
    /// The times of the register accesses.
    pub closed spec fn times(&self) -> Times {
        Times {
            stamps: self.stamps@,
            touched: self.touched@,
            saved: match self.unconstrained_reg_diff {
                Some(diff) => Some(stamps_reverted(self.stamps@, diff@)),
                None => None,
            },
        }
    }

    /// The engine in mathematical terms.
    pub closed spec fn engine(&self) -> Engine {
        Engine {
            cpu: self.core.cpu(),
            times: self.times(),
            global_clk: self.global_clk,
            saved_global_clk: self.saved_global_clk,
        }
    }

    /// The program.
    pub closed spec fn program_spec(&self) -> Program {
        *self.core.program
    }

    /// The parts fit together.
    pub closed spec fn wf(&self) -> bool {
        &&& self.core.wf()
        &&& self.unconstrained_reg_diff matches Some(diff) ==> register_diff_ok(diff@)
        &&& self.unconstrained_reg_diff is Some == self.core.fork is Some
        &&& self.saved_global_clk < u64::MAX
    }

    /// The machine stands at an instruction of the program.
    pub open spec fn ready(&self) -> bool {
        self.program_spec().contains_pc(self.engine().cpu.pc)
    }

    /// What the program prints and tracks.
    pub closed spec fn printed(&self) -> Console {
        self.console
    }

    /// The unfinished line of a file descriptor.
    pub open spec fn pending(&self, fd: u32) -> Seq<char> {
        self.printed().pending(fd)
    }

    /// The tracked spans by name: when they started, and how many were tracked then.
    pub open spec fn spans(&self) -> Map<Seq<char>, (u64, u32)> {
        self.printed().spans()
    }

    /// Print a text to a file descriptor. The lines that it ends are returned; the rest waits.
    pub fn io_buf_push(&mut self, fd: u32, s: &str) -> (r: Vec<String>)
        requires
            old(self).wf(),
            old(self).pending(fd).len() + s@.len() <= usize::MAX,
        ensures
            final(self).wf(),
            final(self).engine() == old(self).engine(),
            final(self).program_spec() == old(self).program_spec(),
            console::contents(r@) == console::pieces(
                old(self).pending(fd) + s@,
            ).drop_last(),
            final(self).pending(fd) == console::pieces(
                old(self).pending(fd) + s@,
            ).last(),
            forall|other: u32|
                other != fd ==> #[trigger] final(self).pending(other) == old(self).pending(other),
            final(self).spans() == old(self).spans(),
    {
        self.console.io_buf_push(fd, s)
    }

    /// Start to track a span at the current instruction.
    pub fn cycle_tracker_start(&mut self, name: &str)
        requires
            old(self).wf(),
            old(self).spans().dom().finite(),
            old(self).spans().dom().len() <= u32::MAX,
        ensures
            final(self).wf(),
            final(self).engine() == old(self).engine(),
            final(self).program_spec() == old(self).program_spec(),
            final(self).spans() == old(self).spans().insert(
                name@,
                (old(self).engine().global_clk, old(self).spans().dom().len() as u32),
            ),
            forall|fd: u32| #[trigger]
                final(self).pending(fd) == old(self).pending(fd),
    {
        self.console.cycle_tracker_start(name, self.global_clk);
    }

    /// Stop to track a span and tell how many instructions were executed since it started, if it
    /// is tracked.
    pub fn cycle_tracker_end(&mut self, name: &str) -> (r: Option<u64>)
        requires
            old(self).wf(),
            old(self).spans().contains_key(name@) ==> old(self).spans()[name@].0
                <= old(self).engine().global_clk,
        ensures
            final(self).wf(),
            final(self).engine() == old(self).engine(),
            final(self).program_spec() == old(self).program_spec(),
            r == (if old(self).spans().contains_key(name@) {
                Some(
                    (old(self).engine().global_clk - old(self).spans()[name@].0) as u64,
                )
            } else {
                None
            }),
            final(self).spans() == old(self).spans().remove(name@),
            forall|fd: u32| #[trigger]
                final(self).pending(fd) == old(self).pending(fd),
    {
        self.console.cycle_tracker_end(name, self.global_clk)
    }

    /// Create an engine at the start of a program, nothing loaded yet.
    pub fn new(program: Arc<Program>) -> (r: Self)
        requires
            program.wf(),
        ensures
            r.wf(),
            r.program_spec() == *program,
            r.engine() == fresh(*program),
            forall|fd: u32| #[trigger] r.pending(fd) == Seq::<char>::empty(),
            r.spans().is_empty(),
            r.spans().dom().finite(),
    {
        let pc: u32 = program.pc_start;
        let next_pc: u32 = program.next_pc;
        let mem: DiffMemory = DiffMemory::new(PagedMemory::new_preallocated());
        let mut core: CoreVM<DiffMemory> = CoreVM::new(
            program,
            [0u32; 36],
            mem,
            pc,
            1,
            MAX_SYSCALL_CYCLES,
        );
        core.next_pc = next_pc;
        let r = MinimalExecutor {
            core,
            stamps: [0u64; 36],
            touched: [false; 36],
            unconstrained_reg_diff: None,
            global_clk: 0,
            saved_global_clk: 0,
            console: Console::new(),
        };
        proof {
            assert(r.engine().cpu.regs =~= Seq::new(NUM_REGISTERS as nat, |i: int| 0u32));
            assert(r.times().stamps =~= Seq::new(NUM_REGISTERS as nat, |i: int| 0u64));
            assert(r.times().touched =~= Seq::new(NUM_REGISTERS as nat, |i: int| false));
            assert(r.engine() =~= fresh(*program));
        }
        r
    }

    /// The open unconstrained block has accessed a register.
    pub closed spec fn noted_register(&self, r: u32) -> bool {
        self.unconstrained_reg_diff matches Some(diff) && diff@.contains_key(r)
    }

    /// The open unconstrained block has accessed a word.
    pub closed spec fn noted_word(&self, w: int) -> bool {
        self.core.mem.diff matches Some(diff) && diff@.contains_key((4 * w) as u32)
    }

    /// The registers that the open unconstrained block has accessed.
    fn noted_registers(&mut self) -> (r: [bool; 36])
        requires
            old(self).wf(),
        ensures
            final(self).wf(),
            final(self).engine() == old(self).engine(),
            final(self).core == old(self).core,
            final(self).printed() == old(self).printed(),
            final(self).stamps == old(self).stamps,
            final(self).touched == old(self).touched,
            final(self).global_clk == old(self).global_clk,
            final(self).saved_global_clk == old(self).saved_global_clk,
            final(self).unconstrained_reg_diff is Some == old(self).unconstrained_reg_diff is Some,
            forall|k: u32|
                final(self).noted_register(k) == #[trigger] old(self).noted_register(k),
            forall|k: u32|
                k < NUM_REGISTERS ==> #[trigger] r@[k as int] == old(self).noted_register(k),
    {
        let mut flags: [bool; 36] = [false; 36];
        let mut diff: Option<DiffMap> = None;
        std::mem::swap(&mut diff, &mut self.unconstrained_reg_diff);
        if let Some(notes) = diff {
            let ghost noted = notes@;
            let mut again: DiffMap = DiffMap::new();
            let listed: Vec<(u32, Option<(u64, u32)>)> = notes.entries();
            let mut i: usize = 0;
            while i < listed.len()
                invariant
                    i <= listed@.len(),
                    register_diff_ok(noted),
                    forall|j: int|
                        0 <= j < listed@.len() ==> noted.contains_key((#[trigger] listed@[j]).0)
                            && noted[listed@[j].0] == listed@[j].1,
                    forall|j: int|
                        0 <= j < i ==> again@.contains_key((#[trigger] listed@[j]).0)
                            && flags@[listed@[j].0 as int],
                    forall|k: u32| #[trigger]
                        again@.contains_key(k) ==> noted.contains_key(k) && again@[k] == noted[k],
                    forall|k: u32|
                        k < NUM_REGISTERS && #[trigger] flags@[k as int] ==> noted.contains_key(k),
                decreases listed@.len() - i,
            {
                let (k, held) = listed[i];
                proof {
                    assert(noted.contains_key(listed@[i as int].0));
                }
                let ghost before = again@;
                again.note_first(k, held);
                proof {
                    assert(noted[k] == held);
                    assert forall|m: u32| #[trigger] again@.contains_key(m) implies noted.contains_key(m)
                        && again@[m] == noted[m] by {
                        if m != k {
                            assert(before.contains_key(m));
                        }
                    }
                }
                flags[k as usize] = true;
                i = i + 1;
            }
            proof {
                assert forall|k: u32| #[trigger] noted.contains_key(k) implies again@.contains_key(
                    k,
                ) && flags@[k as int] by {
                    let j = choose|j: int|
                        0 <= j < listed@.len() && (#[trigger] listed@[j]).0 == k;
                    assert(again@.contains_key(listed@[j].0));
                }
                assert(again@ =~= noted);
            }
            self.unconstrained_reg_diff = Some(again);
        }
        proof {
            assert(self.times() =~= old(self).times());
            assert(self.engine() =~= old(self).engine());
        }
        flags
    }

    /// Loads the initial image of the program: addresses below the register count seed registers,
    /// the others memory words. An open unconstrained block does not take the image for a change of
    /// its own: what it has not accessed yet goes back to what the image says.
    pub fn load_image(&mut self)
        requires
            old(self).wf(),
        ensures
            old(self).engine().cpu.fork matches Some(was) ==> (
            final(self).engine().cpu.fork matches Some(now) && now.pc == was.pc && now.clk == was.clk
                && now.regs.len() == was.regs.len() && forall|r: u32|
                r < NUM_REGISTERS ==> #[trigger] now.regs[r as int] == (if old(
                    self,
                ).program_spec().image@.contains_key(r) && !old(self).noted_register(r) {
                    old(self).program_spec().image@[r]
                } else {
                    was.regs[r as int]
                })),
            old(self).engine().times.saved matches Some(was) ==> (
            final(self).engine().times.saved matches Some(now) && now.len() == was.len() && forall|
                r: u32,
            |
                r < NUM_REGISTERS ==> #[trigger] now[r as int] == (if old(self).noted_register(r) {
                    was[r as int]
                } else {
                    final(self).engine().times.stamps[r as int]
                })),
            old(self).engine().cpu.bus->Live_0.mem.saved matches Some(was) ==> (
            final(self).engine().cpu.bus->Live_0.mem.saved matches Some(now) && forall|w: int|
                #[trigger] memory::lookup(now, w) == (if old(self).noted_word(w) {
                    memory::lookup(was, w)
                } else {
                    memory::lookup(final(self).engine().cpu.bus->Live_0.mem.seen, w)
                })),
            final(self).printed() == old(self).printed(),
            final(self).wf(),
            final(self).program_spec() == old(self).program_spec(),
            image_laid_over(
                old(self).program_spec().image@,
                old(self).engine(),
                final(self).engine(),
            ),
    {
        let listed: Vec<(u32, u32)> = listed_image(&self.core.program.image);
        let ghost image = self.core.program.image@;
        let noted: [bool; 36] = self.noted_registers();
        let ghost diff = self.unconstrained_reg_diff;
        let mut i: usize = 0;
        while i < listed.len()
            invariant
                i <= listed@.len(),
                self.printed() == old(self).printed(),
                self.wf(),
                self.core.fork is Some == old(self).core.fork is Some,
                old(self).core.fork matches Some(was) ==> {
                    let now = self.core.fork->Some_0;
                    &&& now.pc == was.pc
                    &&& now.clk == was.clk
                    &&& forall|r: u32|
                        r < NUM_REGISTERS ==> (#[trigger] now.registers@[r as int] == was.registers@[r as int]
                            || image.contains_key(r) && !noted@[r as int] && now.registers@[r as int]
                            == image[r])
                    &&& forall|r: u32|
                        r < NUM_REGISTERS && noted@[r as int] ==> #[trigger] now.registers@[r as int]
                            == was.registers@[r as int]
                    &&& forall|j: int|
                        0 <= j < i && (#[trigger] listed@[j]).0 < NUM_REGISTERS
                            && !noted@[listed@[j].0 as int] ==> now.registers@[listed@[j].0 as int]
                            == listed@[j].1
                },
                self.core.mem.diff == old(self).core.mem.diff,
                self.core.program == old(self).core.program,
                image == self.core.program.image@,
                minimal::lists_image(listed@, image),
                self.core.mem.memory@ == minimal::stored(
                    listed@,
                    i as nat,
                    old(self).core.mem.memory@,
                ),
                forall|j: int|
                    0 <= j < i && (#[trigger] listed@[j]).0 < NUM_REGISTERS ==> {
                        &&& self.core.registers@[listed@[j].0 as int] == listed@[j].1
                        &&& self.stamps@[listed@[j].0 as int] == 0
                        &&& self.touched@[listed@[j].0 as int]
                    },
                forall|r: u32|
                    r < NUM_REGISTERS ==> #[trigger] register_from(
                        image,
                        r,
                        self.register_state(r),
                        old(self).register_state(r),
                    ),
                self.core.cpu() == (Cpu {
                    regs: self.core.registers@,
                    bus: self.core.mem.bus(),
                    fork: self.core.cpu().fork,
                    ..old(self).core.cpu()
                }),
                self.core.mem.ram() == (Ram {
                    mem: memory::CowModel { seen: self.core.mem.memory@, ..self.core.mem.ram().mem },
                    ..old(self).core.mem.ram()
                }),
                self.unconstrained_reg_diff == diff,
                self.global_clk == old(self).global_clk,
                self.saved_global_clk == old(self).saved_global_clk,
            decreases listed@.len() - i,
        {
            let (addr, value) = listed[i];
            proof {
                assert(image.contains_key(listed@[i as int].0));
            }
            let ghost former = *self;
            if (addr as usize) < NUM_REGISTERS {
                self.core.registers[addr as usize] = value;
                self.stamps[addr as usize] = 0;
                self.touched[addr as usize] = true;
                if let Some(fork) = self.core.fork {
                    if !noted[addr as usize] {
                        let mut fork: ForkPoint = fork;
                        fork.registers[addr as usize] = value;
                        self.core.fork = Some(fork);
                    }
                }
                proof {
                    assert forall|r: u32| r < NUM_REGISTERS implies #[trigger] register_from(
                        image,
                        r,
                        self.register_state(r),
                        old(self).register_state(r),
                    ) by {
                        assert(register_from(
                            image,
                            r,
                            former.register_state(r),
                            old(self).register_state(r),
                        ));
                    }
                }
            } else {
                self.core.mem.memory.insert(addr, MemoryRecord { value, timestamp: 0 });
            }
            proof {
                if addr >= NUM_REGISTERS {
                    assert forall|r: u32| r < NUM_REGISTERS implies #[trigger] register_from(
                        image,
                        r,
                        self.register_state(r),
                        old(self).register_state(r),
                    ) by {
                        assert(register_from(
                            image,
                            r,
                            former.register_state(r),
                            old(self).register_state(r),
                        ));
                    }
                }
            }
            i = i + 1;
        }
        proof {
            assert forall|r: u32| r < NUM_REGISTERS implies self.register_state(r) == (
            if image.contains_key(r) {
                (image[r], 0u64, true)
            } else {
                old(self).register_state(r)
            }) by {
                assert(register_from(image, r, self.register_state(r), old(self).register_state(r)));
                if image.contains_key(r) {
                    let j = choose|j: int|
                        0 <= j < listed@.len() && (#[trigger] listed@[j]) == (r, image[r]);
                    assert(listed@[j].0 < NUM_REGISTERS);
                }
            }
            assert forall|r: u32| r < NUM_REGISTERS implies #[trigger] self.engine().cpu.regs[r as int]
                == (if image.contains_key(r) {
                image[r]
            } else {
                old(self).engine().cpu.regs[r as int]
            }) by {
                assert(self.register_state(r).0 == self.core.registers@[r as int]);
            }
            assert forall|r: u32| r < NUM_REGISTERS implies #[trigger] self.engine().times.stamps[r as int]
                == (if image.contains_key(r) {
                0
            } else {
                old(self).engine().times.stamps[r as int]
            }) by {
                assert(self.register_state(r).1 == self.stamps@[r as int]);
            }
            assert forall|r: u32| r < NUM_REGISTERS implies #[trigger] self.engine().times.touched[r as int]
                == (image.contains_key(r) || old(self).engine().times.touched[r as int]) by {
                assert(self.register_state(r).2 == self.touched@[r as int]);
            }
            minimal::lemma_words_laid(listed@, image, old(self).core.mem.memory@);
            if let Some(was) = old(self).engine().cpu.fork {
                let now = self.engine().cpu.fork->Some_0;
                assert forall|r: u32| r < NUM_REGISTERS implies #[trigger] now.regs[r as int] == (
                if image.contains_key(r) && !old(self).noted_register(r) {
                    image[r]
                } else {
                    was.regs[r as int]
                }) by {
                    assert(noted@[r as int] == old(self).noted_register(r));
                    if image.contains_key(r) {
                        let j = choose|j: int|
                            0 <= j < listed@.len() && (#[trigger] listed@[j]) == (r, image[r]);
                        assert(listed@[j].0 < NUM_REGISTERS);
                    }
                }
            }
            if let Some(was) = old(self).engine().times.saved {
                let now = self.engine().times.saved->Some_0;
                assert forall|r: u32| r < NUM_REGISTERS implies #[trigger] now[r as int] == (
                if old(self).noted_register(r) {
                    was[r as int]
                } else {
                    self.engine().times.stamps[r as int]
                }) by {
                    assert(self.noted_register(r) == old(self).noted_register(r));
                }
            }
        }
    }

    /// What a register holds, when it was last accessed, and whether it ever was.
    pub closed spec fn register_state(&self, r: u32) -> (u32, u64, bool) {
        (self.core.registers@[r as int], self.stamps@[r as int], self.touched@[r as int])
    }
}

/// A register is as before, or as the image says.
spec fn register_from(
    image: Map<u32, u32>,
    r: u32,
    now: (u32, u64, bool),
    was: (u32, u64, bool),
) -> bool {
    now == was || image.contains_key(r) && now == (image[r], 0u64, true)
}

/// An image is laid over what the engine holds.
pub open spec fn image_laid_over(image: Map<u32, u32>, before: Engine, after: Engine) -> bool {
    &&& forall|r: u32|
        r < NUM_REGISTERS ==> #[trigger] after.cpu.regs[r as int] == (if image.contains_key(r) {
            image[r]
        } else {
            before.cpu.regs[r as int]
        })
    &&& forall|r: u32|
        r < NUM_REGISTERS ==> #[trigger] after.times.stamps[r as int] == (if image.contains_key(r) {
            0
        } else {
            before.times.stamps[r as int]
        })
    &&& forall|r: u32|
        r < NUM_REGISTERS ==> #[trigger] after.times.touched[r as int] == (image.contains_key(r)
            || before.times.touched[r as int])
    &&& after.cpu.bus matches Bus::Live(ram) && {
        &&& minimal::words_laid(image, before.cpu.bus->Live_0.mem.seen, ram.mem.seen)
        &&& ram == (Ram { mem: ram.mem, ..before.cpu.bus->Live_0 })
    }
    &&& after.cpu == (Cpu {
        regs: after.cpu.regs,
        bus: after.cpu.bus,
        fork: after.cpu.fork,
        ..before.cpu
    })
    &&& before.cpu.fork is None ==> after.cpu.fork is None
    &&& after.global_clk == before.global_clk
    &&& after.saved_global_clk == before.saved_global_clk
    &&& after.times.stamps.len() == before.times.stamps.len()
    &&& after.times.touched.len() == before.times.touched.len()
    &&& after.cpu.regs.len() == before.cpu.regs.len()
    &&& before.times.saved is None ==> after.times.saved is None
    &&& before.cpu.bus->Live_0.mem.saved is None ==> after.cpu.bus->Live_0.mem.saved is None
}

/// An access at a position.
fn access_at(register: u8, position: MemoryAccessPosition) -> (r: RegisterAccess)
    ensures
        r == at(register, position),
{
    RegisterAccess { register, position: Some(position) }
}

/// A mere look.
fn looked_at(register: u8) -> (r: RegisterAccess)
    ensures
        r == look(register),
{
    RegisterAccess { register, position: None }
}

/// Every access is one of a register.
spec fn accesses_ok(list: Seq<RegisterAccess>) -> bool {
    forall|i: int| 0 <= i < list.len() ==> (#[trigger] list[i]).register < NUM_REGISTERS
}

/// The register accesses of an instruction that is not a system call, in order.
fn list_register_accesses(i: &Instruction) -> (r: Vec<RegisterAccess>)
    requires
        i.wf(),
    ensures
        r@ == register_accesses(*i),
        accesses_ok(r@),
{
    let mut list: Vec<RegisterAccess> = Vec::new();
    let a: RegisterAccess = access_at(i.op_a, MemoryAccessPosition::A);
    let hi: RegisterAccess = access_at(Register::HI.index(), MemoryAccessPosition::HI);
    match i.opcode.op_class() {
        OpClass::Alu => {
            if !i.imm_c {
                list.push(access_at(i.op_c as u8, MemoryAccessPosition::C));
                list.push(access_at(i.op_b as u8, MemoryAccessPosition::B));
            } else if !i.imm_b {
                list.push(access_at(i.op_b as u8, MemoryAccessPosition::B));
            }
            if i.opcode.is_use_lo_hi_alu() {
                list.push(access_at(Register::LO.index(), MemoryAccessPosition::A));
                list.push(hi);
            } else {
                list.push(a);
            }
        },
        OpClass::Load => {
            list.push(access_at(i.op_b as u8, MemoryAccessPosition::B));
            list.push(looked_at(i.op_a));
            list.push(a);
        },
        OpClass::Store => {
            list.push(access_at(i.op_b as u8, MemoryAccessPosition::B));
            if matches!(i.opcode, Opcode::SC) {
                list.push(looked_at(i.op_a));
            }
            list.push(a);
        },
        OpClass::Branch => {
            if !i.opcode.only_one_operand() {
                list.push(access_at(i.op_b as u8, MemoryAccessPosition::B));
            }
            list.push(a);
        },
        OpClass::Jump => {
            if matches!(i.opcode, Opcode::Jump) {
                list.push(access_at(i.op_b as u8, MemoryAccessPosition::B));
            }
            list.push(a);
        },
        OpClass::MovCond => {
            list.push(looked_at(i.op_a));
            list.push(access_at(i.op_c as u8, MemoryAccessPosition::C));
            list.push(access_at(i.op_b as u8, MemoryAccessPosition::B));
            list.push(a);
        },
        OpClass::Misc => match i.opcode {
            Opcode::INS => {
                list.push(access_at(i.op_b as u8, MemoryAccessPosition::B));
                list.push(looked_at(i.op_a));
                list.push(a);
            },
            Opcode::MADDU | Opcode::MSUBU | Opcode::MADD | Opcode::MSUB => {
                list.push(access_at(i.op_c as u8, MemoryAccessPosition::C));
                list.push(access_at(i.op_b as u8, MemoryAccessPosition::B));
                list.push(looked_at(Register::LO.index()));
                list.push(looked_at(Register::HI.index()));
                list.push(a);
                list.push(hi);
            },
            _ => {
                list.push(access_at(i.op_b as u8, MemoryAccessPosition::B));
                list.push(a);
            },
        },
        _ => {},
    }
    proof {
        assert(list@ =~= register_accesses(*i));
    }
    list
}

/// The accesses of a system call before it takes effect.
fn list_call_prologue(code: SyscallCode, arg1: u32) -> (r: Vec<RegisterAccess>)
    ensures
        r@ == call_prologue(code, arg1),
        accesses_ok(r@),
{
    let mut list: Vec<RegisterAccess> = Vec::new();
    list.push(looked_at(Register::V0.index()));
    list.push(access_at(Register::A1.index(), MemoryAccessPosition::C));
    list.push(access_at(Register::A0.index(), MemoryAccessPosition::B));
    let flag: RegisterAccess = access_at(Register::A3.index(), MemoryAccessPosition::Memory);
    match code {
        SyscallCode::WRITE => {
            list.push(looked_at(Register::A2.index()));
        },
        SyscallCode::SYS_WRITE => {
            list.push(looked_at(Register::A2.index()));
            list.push(flag);
        },
        SyscallCode::SYS_MMAP | SyscallCode::SYS_MMAP2 => {
            if arg1 == 0 {
                list.push(access_at(Register::HEAP.index(), MemoryAccessPosition::Memory));
            }
            list.push(flag);
        },
        SyscallCode::SYS_BRK
        | SyscallCode::SYS_CLONE
        | SyscallCode::SYS_EXT_GROUP
        | SyscallCode::SYS_FCNTL
        | SyscallCode::SYS_READ
        | SyscallCode::SYS_OPEN
        | SyscallCode::SYS_CLOSE
        | SyscallCode::SYS_RT_SIGACTION
        | SyscallCode::SYS_RT_SIGPROCMASK
        | SyscallCode::SYS_MADVISE
        | SyscallCode::SYS_GETTID
        | SyscallCode::SYS_SCHED_GETAFFINITY
        | SyscallCode::SYS_CLOCK_GETTIME
        | SyscallCode::SYS_NANOSLEEP
        | SyscallCode::SYS_PRLIMIT64
        | SyscallCode::SYS_SIGALTSTACK
        | SyscallCode::SYS_OPENAT
        | SyscallCode::SYS_FSTAT64
        | SyscallCode::SYS_MUNMAP => {
            list.push(flag);
        },
        _ => {},
    }
    proof {
        assert(list@ =~= call_prologue(code, arg1));
    }
    list
}

/// The register accesses that an instruction makes before it fails.
fn list_early_accesses(i: &Instruction, code: SyscallCode, forked: bool) -> (r: Vec<RegisterAccess>)
    requires
        i.wf(),
    ensures
        accesses_ok(r@),
        forall|c: Cpu|
            code == SyscallCode::decode(c.reg(Register::V0.number())) && forked == c.fork is Some
                ==> r@ == #[trigger] early_accesses(c, *i),
{
    let mut list: Vec<RegisterAccess> = Vec::new();
    if i.is_syscall_instruction() {
        list.push(looked_at(Register::V0.index()));
        list.push(access_at(Register::A1.index(), MemoryAccessPosition::C));
        list.push(access_at(Register::A0.index(), MemoryAccessPosition::B));
        if code == SyscallCode::WRITE || code == SyscallCode::SYS_WRITE && !forked {
            list.push(looked_at(Register::A2.index()));
        }
        proof {
            assert forall|c: Cpu|
                code == SyscallCode::decode(c.reg(Register::V0.number())) && forked == c.fork is Some
                implies list@ == #[trigger] early_accesses(c, *i) by {
                assert(list@ =~= early_accesses(c, *i));
            }
        }
    } else {
        list = list_register_accesses(i);
        let late: usize = match i.opcode.op_class() {
            OpClass::Alu => if i.opcode.is_use_lo_hi_alu() {
                2
            } else {
                1
            },
            OpClass::Load => 1,
            OpClass::Store => if matches!(i.opcode, Opcode::SC) {
                1
            } else {
                0
            },
            OpClass::Misc => if matches!(i.opcode, Opcode::TEQ) {
                0
            } else {
                1
            },
            _ => 0,
        };
        let len: usize = list.len();
        list.truncate(len - late);
    }
    list
}

impl MinimalExecutor {
    /// The program.
    pub fn program(&self) -> (r: &Arc<Program>)
        ensures
            **r == self.program_spec(),
    {
        &self.core.program
    }

    /// The program counter.
    pub fn pc(&self) -> (r: u32)
        ensures
            r == self.engine().cpu.pc,
    {
        self.core.pc
    }

    /// The second program counter.
    pub fn next_pc(&self) -> (r: u32)
        ensures
            r == self.engine().cpu.next_pc,
    {
        self.core.next_pc
    }

    /// The clock.
    pub fn clk(&self) -> (r: u64)
        ensures
            r == self.engine().cpu.clk,
    {
        self.core.clk
    }

    /// The number of instructions retired outside unconstrained blocks.
    pub fn global_clk(&self) -> (r: u64)
        ensures
            r == self.engine().global_clk,
    {
        self.global_clk
    }

    /// Whether the program has halted.
    pub fn exited(&self) -> (r: bool)
        ensures
            r == self.engine().cpu.exited,
    {
        self.core.exited
    }

    /// Whether an unconstrained block is open.
    pub fn is_unconstrained(&self) -> (r: bool)
        ensures
            r == self.engine().cpu.fork is Some,
    {
        self.core.fork.is_some()
    }

    /// The register file.
    pub fn registers(&self) -> (r: [u32; 36])
        ensures
            r@ == self.engine().cpu.regs,
    {
        self.core.registers
    }

    /// The record of a register, if it was ever accessed or loaded.
    pub fn register_record(&self, k: usize) -> (r: Option<MemoryRecord>)
        requires
            k < NUM_REGISTERS,
        ensures
            r == register_end(self.engine(), k as int),
    {
        if self.touched[k] {
            Some(MemoryRecord { value: self.core.registers[k], timestamp: self.stamps[k] })
        } else {
            None
        }
    }

    /// The public values so far.
    pub fn public_values_stream(&self) -> (r: &Vec<u8>)
        ensures
            r@ == self.engine().cpu.output,
    {
        &self.core.public_values_stream
    }

    /// Adds a hint behind the others.
    pub fn add_input(&mut self, input: Vec<u8>)
        requires
            old(self).wf(),
        ensures
            final(self).printed() == old(self).printed(),
            final(self).wf(),
            final(self).program_spec() == old(self).program_spec(),
            final(self).engine() == (Engine {
                cpu: with_ram(
                    old(self).engine().cpu,
                    (Ram {
                        input: old(self).engine().cpu.bus->Live_0.input.push(input@),
                        ..old(self).engine().cpu.bus->Live_0
                    }),
                ),
                ..old(self).engine()
            }),
    {
        self.core.mem.input_stream.push_back(input);
        proof {
            assert(hook::contents(self.core.mem.input_stream@) =~= hook::contents(
                old(self).core.mem.input_stream@,
            ).push(input@));
        }
    }

    /// The number of entries logged since the log was last taken.
    pub fn log_len(&self) -> (r: usize)
        ensures
            self.engine().cpu.bus is Live,
            r == self.engine().cpu.bus->Live_0.log.len(),
    {
        self.core.mem.oracle_out.len()
    }

    /// Takes the log.
    pub fn take_log(&mut self) -> (r: Vec<MemValue>)
        requires
            old(self).wf(),
        ensures
            final(self).printed() == old(self).printed(),
            final(self).wf(),
            final(self).program_spec() == old(self).program_spec(),
            r@ == old(self).engine().cpu.bus->Live_0.log,
            final(self).engine() == (Engine {
                cpu: with_ram(
                    old(self).engine().cpu,
                    (Ram { log: Seq::empty(), ..old(self).engine().cpu.bus->Live_0 }),
                ),
                ..old(self).engine()
            }),
    {
        let mut log: Vec<MemValue> = Vec::new();
        std::mem::swap(&mut log, &mut self.core.mem.oracle_out);
        log
    }

    /// The words of memory, in increasing order of address.
    pub fn memory_records(&self) -> (r: Vec<(u32, MemoryRecord)>)
        requires
            self.wf(),
        ensures
            globals::lists_records(r@, self.engine().cpu.bus->Live_0.mem.seen),
    {
        list_records(&self.core.mem.memory)
    }

    /// Every word of memory has an address.
    pub proof fn lemma_words_are_addressable(&self, w: int)
        requires
            self.engine().cpu.bus->Live_0.mem.seen.contains_key(w),
        ensures
            0 <= w < memory::MAX_WORDS,
    {
    }

    /// The values that untouched words take on their first access.
    pub fn seeds(&self) -> (r: &PagedMemory<u32>)
        requires
            self.wf(),
        ensures
            r.wf(),
            r@ == self.engine().cpu.bus->Live_0.seeds,
    {
        &self.core.mem.uninitialized_memory
    }

    /// Everything but the times of the register accesses is as before.
    spec fn same_but_times(&self, before: &Self) -> bool {
        &&& self.core == before.core
        &&& self.global_clk == before.global_clk
        &&& self.saved_global_clk == before.saved_global_clk
    }

    /// The register notes are in order.
    spec fn notes_ok(&self) -> bool {
        self.unconstrained_reg_diff matches Some(diff) ==> register_diff_ok(diff@)
    }

    /// Accesses a register.
    fn reg_access(&mut self, access: RegisterAccess, clk: u64)
        requires
            old(self).notes_ok(),
            access.register < NUM_REGISTERS,
            clk <= u64::MAX - 4,
        ensures
            final(self).printed() == old(self).printed(),
            final(self).notes_ok(),
            final(self).same_but_times(old(self)),
            final(self).unconstrained_reg_diff is Some == old(self).unconstrained_reg_diff is Some,
            final(self).times() == old(self).times().accessed(access, clk),
    {
        let k: usize = access.register as usize;
        let held: (u64, u32) = (self.stamps[k], self.core.registers[k]);
        let mut diff: Option<DiffMap> = None;
        std::mem::swap(&mut diff, &mut self.unconstrained_reg_diff);
        self.unconstrained_reg_diff = match diff {
            Some(mut notes) => {
                notes.note_first(access.register as u32, Some(held));
                Some(notes)
            },
            None => None,
        };
        self.touched[k] = true;
        if let Some(position) = access.position {
            self.stamps[k] = clk + position.index() as u64;
        }
        proof {
            let was = old(self).times();
            let now = self.times();
            assert(now.stamps =~= was.accessed(access, clk).stamps);
            assert(now.touched =~= was.accessed(access, clk).touched);
            if let Some(saved) = was.saved {
                assert(now.saved->Some_0 =~= saved);
            }
        }
    }

    /// Makes the accesses of a list.
    fn reg_access_all(&mut self, list: &Vec<RegisterAccess>, clk: u64)
        requires
            old(self).notes_ok(),
            accesses_ok(list@),
            clk <= u64::MAX - 4,
        ensures
            final(self).printed() == old(self).printed(),
            final(self).notes_ok(),
            final(self).same_but_times(old(self)),
            final(self).unconstrained_reg_diff is Some == old(self).unconstrained_reg_diff is Some,
            final(self).times() == old(self).times().after(list@, clk),
    {
        let mut i: usize = 0;
        while i < list.len()
            invariant
                i <= list@.len(),
                self.printed() == old(self).printed(),
                accesses_ok(list@),
                clk <= u64::MAX - 4,
                self.notes_ok(),
                self.same_but_times(old(self)),
                self.unconstrained_reg_diff is Some == old(self).unconstrained_reg_diff is Some,
                self.times() == old(self).times().accessed_all(list@, clk, i as nat),
            decreases list@.len() - i,
        {
            proof {
                assert(list@[i as int].register < NUM_REGISTERS);
            }
            self.reg_access(list[i], clk);
            i = i + 1;
        }
    }

    /// Starts to note what registers held.
    fn start_notes(&mut self)
        requires
            old(self).unconstrained_reg_diff is None,
        ensures
            final(self).printed() == old(self).printed(),
            final(self).notes_ok(),
            final(self).same_but_times(old(self)),
            final(self).unconstrained_reg_diff is Some,
            final(self).times() == old(self).times().entered(),
    {
        let notes: DiffMap = DiffMap::new();
        self.unconstrained_reg_diff = Some(notes);
        proof {
            assert(stamps_reverted(self.stamps@, notes@) =~= self.stamps@);
        }
    }

    /// Puts the times of access back.
    fn revert_notes(&mut self)
        requires
            old(self).notes_ok(),
        ensures
            final(self).printed() == old(self).printed(),
            final(self).unconstrained_reg_diff is None,
            final(self).same_but_times(old(self)),
            final(self).times() == old(self).times().left(),
    {
        let mut diff: Option<DiffMap> = None;
        std::mem::swap(&mut diff, &mut self.unconstrained_reg_diff);
        if let Some(notes) = diff {
            let ghost noted = notes@;
            let ghost changed = self.stamps@;
            let changes: Vec<(u32, Option<(u64, u32)>)> = notes.entries();
            let mut i: usize = 0;
            while i < changes.len()
                invariant
                    i <= changes@.len(),
                    self.printed() == old(self).printed(),
                    self.same_but_times(old(self)),
                    self.unconstrained_reg_diff is None,
                    self.touched == old(self).touched,
                    changed == old(self).stamps@,
                    register_diff_ok(noted),
                    forall|j: int|
                        0 <= j < changes@.len() ==> noted.contains_key((#[trigger] changes@[j]).0)
                            && noted[changes@[j].0] == changes@[j].1,
                    forall|j: int, k: int|
                        0 <= j < k < changes@.len() ==> (#[trigger] changes@[j]).0 != (
                        #[trigger] changes@[k]).0,
                    forall|j: int|
                        0 <= j < i ==> self.stamps@[(#[trigger] changes@[j]).0 as int]
                            == changes@[j].1->Some_0.0,
                    forall|r: u32|
                        r < NUM_REGISTERS && !noted.contains_key(r) ==> #[trigger] self.stamps@[r as int]
                            == changed[r as int],
                decreases changes@.len() - i,
            {
                let (k, held) = changes[i];
                proof {
                    assert(noted.contains_key(changes@[i as int].0));
                }
                if let Some((stamp, _)) = held {
                    self.stamps[k as usize] = stamp;
                }
                i = i + 1;
            }
            proof {
                assert forall|k: int| 0 <= k < NUM_REGISTERS implies #[trigger] self.stamps@[k]
                    == stamps_reverted(changed, noted)[k] by {
                    let r = k as u32;
                    if noted.contains_key(r) {
                        let j = choose|j: int|
                            0 <= j < changes@.len() && (#[trigger] changes@[j]).0 == r;
                        assert(self.stamps@[changes@[j].0 as int] == changes@[j].1->Some_0.0);
                    } else {
                        assert(self.stamps@[r as int] == changed[r as int]);
                    }
                }
                assert(self.stamps@ =~= stamps_reverted(changed, noted));
            }
        }
    }

    /// Executes the instruction at the current `pc`. Gives whether the program has ended.
    pub fn execute_instruction(&mut self) -> (r: Result<bool, ExecutionError>)
        requires
            old(self).wf(),
            old(self).ready(),
        ensures
            final(self).printed() == old(self).printed(),
            final(self).wf(),
            final(self).program_spec() == old(self).program_spec(),
            old(self).engine().steps_to(old(self).program_spec(), final(self).engine(), r),
            r is Ok ==> final(self).engine().cpu.retired == old(self).engine().cpu.retired + 1,
            r is Err ==> final(self).engine().cpu.retired >= old(self).engine().cpu.retired,
    {
        if self.core.clk > CLOCK_LIMIT || self.global_clk == u64::MAX || self.core.retired
            == u64::MAX {
            return Err(ExecutionError::ExceededCycleLimit(self.core.clk));
        }
        let ghost before = self.engine();
        let ghost program = self.program_spec();
        let i: Instruction = self.core.program.fetch(self.core.pc);
        proof {
            assert(i == self.core.program.instructions@[(self.core.pc.wrapping_sub(
                self.core.program.pc_base,
            ) / 4) as int]);
        }
        let clk: u64 = self.core.clk;
        let code: SyscallCode = SyscallCode::from_u32(self.core.reg(Register::V0.index()));
        let arg1: u32 = self.core.reg(Register::A0.index());
        let is_call: bool = i.is_syscall_instruction();
        let fork_clk: Option<u64> = match self.core.fork {
            Some(fork) => Some(fork.clk),
            None => None,
        };
        let done: Result<(), ExecutionError> = self.core.execute_direct_operation(&i);
        proof {
            lemma_fork_changes(before.cpu, program, i);
        }
        let null: bool = match done {
            Ok(()) => false,
            Err(ExecutionError::NullPointerReference()) => true,
            Err(e) => {
                let early: Vec<RegisterAccess> = list_early_accesses(&i, code, fork_clk.is_some());
                self.reg_access_all(&early, clk);
                return Err(e);
            },
        };
        let mut count: u64 = self.global_clk;
        if is_call {
            let prologue: Vec<RegisterAccess> = list_call_prologue(code, arg1);
            self.reg_access_all(&prologue, clk);
            let mut result: Vec<RegisterAccess> = Vec::new();
            result.push(access_at(Register::V0.index(), MemoryAccessPosition::A));
            proof {
                assert(result@ =~= seq![at(Register::V0.number(), MemoryAccessPosition::A)]);
            }
            if code == SyscallCode::ENTER_UNCONSTRAINED {
                self.saved_global_clk = self.global_clk;
                self.start_notes();
                self.reg_access_all(&result, clk);
            } else if code == SyscallCode::EXIT_UNCONSTRAINED && fork_clk.is_some() {
                self.revert_notes();
                count = self.saved_global_clk;
                if let Some(fork_clk) = fork_clk {
                    self.reg_access_all(&result, fork_clk);
                }
            } else {
                self.reg_access_all(&result, clk);
            }
        } else {
            let list: Vec<RegisterAccess> = list_register_accesses(&i);
            self.reg_access_all(&list, clk);
        }
        self.global_clk = count;
        if null {
            return Err(ExecutionError::NullPointerReference());
        }
        self.core.clk = self.core.clk + 5;
        self.core.retired = self.core.retired + 1;
        self.global_clk = self.global_clk + 1;
        let done: bool = self.core.is_done();
        if done && self.core.fork.is_some() {
            return Err(ExecutionError::EndInUnconstrained());
        }
        Ok(done)
    }
}

/// Only entering and leaving a block change whether one is open.
proof fn lemma_fork_changes(c: Cpu, program: Program, i: Instruction)
    ensures
        ({
            let code = SyscallCode::decode(c.reg(Register::V0.number()));
            let (d, r) = c.direct_operate(program, i);
            let calls = i.opcode.class() == OpClass::Syscall;
            let late = r is Ok || r == Err::<(), _>(ExecutionError::NullPointerReference());
            &&& !late ==> d.fork == c.fork
            &&& late && calls && code == SyscallCode::ENTER_UNCONSTRAINED ==> c.fork is None
                && d.fork is Some
            &&& late && calls && code == SyscallCode::EXIT_UNCONSTRAINED ==> d.fork is None
            &&& late && !(calls && (code == SyscallCode::ENTER_UNCONSTRAINED || code
                == SyscallCode::EXIT_UNCONSTRAINED)) ==> d.fork == c.fork
        }),
{
    reveal(Cpu::direct_operate);
    reveal(Cpu::operate);
    let start = Cpu { delay: false, ..c };
    let code = SyscallCode::decode(c.reg(Register::V0.number()));
    lemma_dispatch_fork(
        start,
        program,
        code,
        c.reg(Register::A0.number()),
        c.reg(Register::A1.number()),
    );
}

proof fn lemma_dispatch_fork(c: Cpu, program: Program, code: SyscallCode, arg1: u32, arg2: u32)
    ensures
        code == SyscallCode::ENTER_UNCONSTRAINED ==> c.dispatch(
            program,
            code,
            arg1,
            arg2,
        ).0.fork is Some && c.dispatch(program, code, arg1, arg2).1 is Ok && c.dispatch(
            program,
            code,
            arg1,
            arg2,
        ).0.pc == c.pc,
        code == SyscallCode::EXIT_UNCONSTRAINED ==> c.dispatch(
            program,
            code,
            arg1,
            arg2,
        ).0.fork is None && c.dispatch(program, code, arg1, arg2).1 is Ok,
        code != SyscallCode::ENTER_UNCONSTRAINED && code != SyscallCode::EXIT_UNCONSTRAINED
            ==> c.dispatch(program, code, arg1, arg2).0.fork == c.fork,
{
    reveal(Cpu::dispatch);
    crate::laws::lemma_memory_calls_keep_registers(c, Precompile::of(code)->Some_0, arg1, arg2);
    assert(c.sys_write(arg1, arg2).0.fork == c.fork) by {
        reveal(Cpu::sys_write);
    }
}

} // verus!
