//! Tracing: replays the part of a run that belongs to a shard and records what the processor did.
use std::sync::Arc;

use vstd::prelude::*;

use crate::chips::{self, Ledger, Operands, Retired};
use crate::core_vm::CoreVM;
use crate::errors::ExecutionError;
use crate::events::MemValue;
use crate::instruction::Instruction;
use crate::machine::{self, Bus, Cpu, CLOCK_LIMIT};
use crate::minimal;
use crate::opcode::{OpClass, Opcode};
use crate::precompiles::Precompile;
use crate::program::Program;
use crate::record::ExecutionRecord;
use crate::register::Register;
use crate::sources::MemReads;
use crate::splicing;
use crate::syscalls::SyscallCode;
use crate::trace::MinimalTrace;
use crate::vm;

verus! {

/// Whether a replay goes on: neither has the program ended nor the clock reached the end.
pub open spec fn goes_on(start: Cpu, program: Program, max_syscall_cycles: u32, clk_end: u64, n: nat) -> bool {
    forall|k: nat|
        1 <= k <= n ==> (#[trigger] start.steps(program, max_syscall_cycles, k) matches Some(c)
            && !c.done(program) && c.clk < clk_end)
}

/// A trace of `n` instructions: the shard ends behind them, or the next one fails.
pub open spec fn traces(
    start: Cpu,
    program: Program,
    max_syscall_cycles: u32,
    clk_end: u64,
    n: nat,
    r: Result<ExecutionRecord, ExecutionError>,
) -> bool {
    match (r, start.steps(program, max_syscall_cycles, n)) {
        (Ok(record), Some(end)) => {
            &&& n >= 1
            &&& goes_on(start, program, max_syscall_cycles, clk_end, (n - 1) as nat)
            &&& end.done(program) || end.clk >= clk_end
            &&& record.ledger() == chips::traced(
                Ledger::empty(),
                start,
                program,
                max_syscall_cycles,
                n,
            )
            &&& record.program == program
            &&& record.only_ledger()
        },
        (Err(e), Some(last)) => {
            &&& goes_on(start, program, max_syscall_cycles, clk_end, n)
            &&& last.step(program, max_syscall_cycles).1 == Err::<(), ExecutionError>(e)
        },
        _ => false,
    }
}

/// A store that succeeds is aligned.
proof fn lemma_store_is_aligned(before: Cpu, program: Program, max_syscall_cycles: u32)
    requires
        before.step(program, max_syscall_cycles).1 is Ok,
        program.at(before.pc).opcode.class() == OpClass::Store,
    ensures
        !vm::store_misaligned(
            program.at(before.pc).opcode,
            before.address(program.at(before.pc)),
        ),
{
    reveal(Cpu::operate);
}

/// The values of the next entries of the log, from a distance on.
fn words_ahead(core: &CoreVM<MemReads>, ptr: u32, n: usize, ahead: usize) -> (r: Vec<u32>)
    requires
        core.wf(),
        n + ahead <= 0xffff,
    ensures
        r@ == core.cpu().bus.peek_many(ptr, n as nat, ahead as nat),
{
    let mut words: Vec<u32> = Vec::new();
    let mut k: usize = 0;
    while k < n
        invariant
            k <= n,
            n + ahead <= 0xffff,
            core.wf(),
            words@ =~= core.cpu().bus.peek_many(ptr, k as nat, ahead as nat),
        decreases n - k,
    {
        words.push(
            match core.mem.ahead(ahead + k) {
                Some(entry) => entry.value,
                None => 0,
            },
        );
        k = k + 1;
    }
    words
}

/// The operands that an instruction is about to find in memory.
fn coming_operands(core: &CoreVM<MemReads>, i: &Instruction) -> (r: (Vec<u32>, Vec<u32>))
    requires
        core.wf(),
    ensures
        (Operands { first: r.0@, second: r.1@ }) == chips::operands(core.cpu(), *i),
{
    if i.opcode == Opcode::SYSCALL {
        let code: SyscallCode = SyscallCode::from_u32(core.registers[Register::V0.index() as usize]);
        let arg1: u32 = core.registers[Register::A0.index() as usize];
        let arg2: u32 = core.registers[Register::A1.index() as usize];
        if let Some(op) = Precompile::of_code(code) {
            let n: usize = op.num_words();
            match op {
                Precompile::EcAdd(_) | Precompile::EdAdd => {
                    return (words_ahead(core, arg1, n, n), words_ahead(core, arg2, n, 0));
                },
                Precompile::EcDouble(_) | Precompile::EcDecompress(_) => {
                    let words: Vec<u32> = words_ahead(core, arg1, n, 0);
                    proof {
                        let at = machine::word_at(arg1, n as int);
                        assert(words@ =~= core.cpu().bus.peek_many(at, n as nat, 0));
                    }
                    return (words, Vec::new());
                },
                _ => {},
            }
        }
    }
    (Vec::new(), Vec::new())
}

/// Puts together what the events of the instruction that just retired are made of.
fn just_retired(
    core: &CoreVM<MemReads>,
    i: Instruction,
    registers: &[u32; 36],
    pc: u32,
    prev_clk: u64,
    next_word: Option<MemValue>,
    Ghost(before): Ghost<Cpu>,
) -> (r: Retired)
    requires
        i.wf(),
        before.regs == registers@,
        before.pc == pc,
        before.clk == prev_clk,
        prev_clk <= CLOCK_LIMIT,
        before.bus matches Bus::Replay(left) && next_word == (if left.len() > 0 {
            Some(left[0])
        } else {
            None
        }),
    ensures
        r == chips::retired(before, core.cpu(), i, core.max_syscall_cycles),
        r.prev_clk <= r.clk,
{
    let class: OpClass = i.opcode.op_class();
    let id: u32 = registers[Register::V0.index() as usize];
    let arg1: u32 = registers[Register::A0.index() as usize];
    let arg2: u32 = registers[Register::A1.index() as usize];
    let b: u32 = if i.reads_b() {
        registers[(i.op_b as u8) as usize]
    } else {
        match class {
            OpClass::Branch => 0,
            OpClass::Syscall => arg1,
            _ => i.op_b,
        }
    };
    let c: u32 = if i.reads_c() {
        registers[(i.op_c as u8) as usize]
    } else {
        match class {
            OpClass::Syscall => arg2,
            _ => i.op_c,
        }
    };
    let shows: bool = match class {
        OpClass::Load | OpClass::Store => true,
        OpClass::Syscall => SyscallCode::from_u32(id) == SyscallCode::KECCAK_SPONGE,
        _ => false,
    };
    let none: MemValue = MemValue { clk: 0, value: 0 };
    let word: MemValue = if shows {
        match next_word {
            Some(word) => word,
            None => none,
        }
    } else {
        none
    };
    let lo_hi: bool = i.opcode.is_use_lo_hi_alu();
    Retired {
        instruction: i,
        prev_clk,
        clk: vm::bump_clk_high_if_need(prev_clk, core.max_syscall_cycles),
        end_clk: core.clk,
        pc,
        next_pc: core.pc,
        next_next_pc: core.next_pc,
        a: if lo_hi {
            core.registers[Register::LO.index() as usize]
        } else {
            core.registers[i.op_a as usize]
        },
        hi: if lo_hi {
            core.registers[Register::HI.index() as usize]
        } else {
            0
        },
        b,
        c,
        prev_a: registers[i.op_a as usize],
        id,
        word,
    }
}

/// Replays a shard and records it.
pub struct TracingVM {
    core: CoreVM<MemReads>,
    clk_end: u64,
    record: ExecutionRecord,
}

impl TracingVM {
    /// The machine in mathematical terms.
    pub closed spec fn cpu(&self) -> Cpu {
        self.core.cpu()
    }

    /// The program.
    pub closed spec fn program_spec(&self) -> Program {
        *self.core.program
    }

    /// The most cycles that any system call takes.
    pub closed spec fn max_cycles(&self) -> u32 {
        self.core.max_syscall_cycles
    }

    /// The clock at the end of the shard.
    pub closed spec fn end(&self) -> u64 {
        self.clk_end
    }

    /// The record.
    pub closed spec fn recorded(&self) -> ExecutionRecord {
        self.record
    }

    /// The parts fit together.
    pub closed spec fn wf(&self) -> bool {
        self.core.wf() && self.record.precompile_events.wf()
    }

    /// Create a tracer at the start of a shard, with an empty record.
    pub fn new<T: MinimalTrace>(trace: &T, program: Arc<Program>, max_syscall_cycles: u32) -> (r: Self)
        requires
            trace.wf(),
            program.wf(),
        ensures
            r.wf(),
            splicing::starts_with(r.cpu(), trace),
            r.program_spec() == *program,
            r.max_cycles() == max_syscall_cycles,
            r.end() == trace.clk_at_end(),
            r.recorded().blank(),
            r.recorded().program == program,
    {
        let record: ExecutionRecord = ExecutionRecord::new(program.clone());
        let core: CoreVM<MemReads> = CoreVM::new(
            program,
            trace.start_registers(),
            trace.mem_reads(),
            trace.pc_start(),
            trace.clk_start(),
            max_syscall_cycles,
        );
        TracingVM { core, clk_end: trace.clk_end(), record }
    }

    /// Replays the shard: at least one instruction, then on until the clock reaches the end of the
    /// shard or the program ends. The record takes the events of every instruction that retires
    /// outside unconstrained blocks.
    pub fn execute(&mut self) -> (r: Result<(), ExecutionError>)
        requires
            old(self).wf(),
            old(self).program_spec().contains_pc(old(self).cpu().pc),
        ensures
            final(self).wf(),
            final(self).program_spec() == old(self).program_spec(),
            ({
                let start = old(self).cpu();
                let program = old(self).program_spec();
                let cycles = old(self).max_cycles();
                let n = (final(self).cpu().retired - start.retired) as nat;
                &&& final(self).recorded().same_beside_ledger(&old(self).recorded())
                &&& final(self).recorded().precompile_events.wf()
                &&& final(self).recorded().ledger() == chips::traced(
                    old(self).recorded().ledger(),
                    start,
                    program,
                    cycles,
                    n,
                )
                &&& match r {
                    Ok(()) => {
                        &&& n >= 1
                        &&& goes_on(start, program, cycles, old(self).end(), (n - 1) as nat)
                        &&& start.steps(program, cycles, n) == Some(final(self).cpu())
                        &&& final(self).cpu().done(program) || final(self).cpu().clk >= old(
                            self,
                        ).end()
                    },
                    Err(e) => {
                        &&& goes_on(start, program, cycles, old(self).end(), n)
                        &&& start.steps(program, cycles, n) matches Some(last) && last.step(
                            program,
                            cycles,
                        ) == (final(self).cpu(), Err::<(), ExecutionError>(e))
                    },
                }
            }),
    {
        let ghost start = self.core.cpu();
        let ghost program = self.program_spec();
        let ghost cycles = self.core.max_syscall_cycles;
        loop
            invariant
                self.core.wf(),
                *self.core.program == program,
                self.core.max_syscall_cycles == cycles,
                self.clk_end == old(self).clk_end,
                program == old(self).program_spec(),
                cycles == old(self).max_cycles(),
                start == old(self).cpu(),
                self.core.program.contains_pc(self.core.pc),
                start.retired <= self.core.retired,
                goes_on(
                    start,
                    program,
                    cycles,
                    self.clk_end,
                    (self.core.retired - start.retired) as nat,
                ),
                start.steps(program, cycles, (self.core.retired - start.retired) as nat) == Some(
                    self.core.cpu(),
                ),
                self.record.same_beside_ledger(&old(self).record),
                self.record.precompile_events.wf(),
                self.record.ledger() == chips::traced(
                    old(self).record.ledger(),
                    start,
                    program,
                    cycles,
                    (self.core.retired - start.retired) as nat,
                ),
            decreases u64::MAX - self.core.retired,
        {
            let ghost before = self.core.cpu();
            let ghost n = (before.retired - start.retired) as nat;
            let prev_clk: u64 = self.core.clk;
            let pc: u32 = self.core.pc;
            let i: Instruction = self.core.program.fetch(pc);
            let registers: [u32; 36] = self.core.registers;
            let next_word: Option<MemValue> = self.core.mem.ahead(0);
            let unconstrained: bool = self.core.fork.is_some();
            let (first, second) = coming_operands(&self.core, &i);
            let stepped: Result<(), ExecutionError> = self.core.execute_instruction();
            proof {
                minimal::lemma_step_retired(before, program, cycles);
            }
            if let Err(e) = stepped {
                return Err(e);
            }
            proof {
                assert(start.steps(program, cycles, n + 1) == Some(self.core.cpu()));
            }
            if !unconstrained {
                let r: Retired = just_retired(
                    &self.core,
                    i,
                    &registers,
                    pc,
                    prev_clk,
                    next_word,
                    Ghost(before),
                );
                proof {
                    if i.opcode.class() == OpClass::Store {
                        lemma_store_is_aligned(before, program, cycles);
                    }
                }
                chips::note(&mut self.record, &r, first, second);
            }
            if self.core.is_done() || self.core.clk >= self.clk_end {
                return Ok(());
            }
        }
    }

    /// The record.
    pub fn into_record(self) -> (r: ExecutionRecord)
        ensures
            r == self.recorded(),
    {
        self.record
    }
}

} // verus!
