//! Runs a program for real and buffers the values that its memory accesses see into bounded
//! chunks. Decides nothing about shards.
use std::sync::Arc;

use vstd::prelude::*;

use crate::errors::ExecutionError;
use crate::events::{MemValue, MemoryInitializeFinalizeEvent, MemoryRecord};
use crate::globals::{self, add_memory_events};
use crate::machine::Ram;
use crate::memory;
use crate::minimal::executor::{self, Engine, MinimalExecutor};
use crate::program::Program;
use crate::record::ExecutionRecord;
use crate::register::NUM_REGISTERS;

verus! {

/// A bounded part of a run.
pub struct Chunk {
    /// The values that the memory accesses saw.
    pub oracle: Vec<u32>,
    pub pc_start: u32,
    pub next_pc_start: u32,
    pub clk_start: u64,
    pub global_clk_start: u64,
    /// Whether the program ended in this chunk.
    pub done: bool,
}

/// The values of a log.
pub open spec fn values(log: Seq<MemValue>) -> Seq<u32> {
    log.map_values(|e: MemValue| e.value)
}

/// The number of logged entries.
pub open spec fn logged(e: Engine) -> nat {
    e.cpu.bus->Live_0.log.len()
}

/// After each of the first `n` instructions the chunk goes on.
pub open spec fn goes_on(start: Engine, program: Program, chunk_threshold: u64, n: nat) -> bool {
    forall|k: nat|
        1 <= k <= n ==> (#[trigger] start.after(program, k) matches Some(e) && !e.cpu.done(program)
            && logged(e) < chunk_threshold)
}

/// The engine with an empty log.
pub open spec fn drained(e: Engine) -> Engine {
    Engine {
        cpu: executor::with_ram(e.cpu, Ram { log: Seq::empty(), ..e.cpu.bus->Live_0 }),
        ..e
    }
}

/// Produces chunks from a program and its inputs.
pub struct MinimalRunner {
    core: MinimalExecutor,
    /// The number of values after which a chunk is given out.
    chunk_threshold: u64,
    /// Set once the program has ended after at least one instruction. The program counter alone
    /// does not tell: zero is where a program halts and where one may start.
    finished: bool,
}

impl MinimalRunner {
    /// The engine in mathematical terms.
    pub closed spec fn engine(&self) -> Engine {
        self.core.engine()
    }

    /// The program.
    pub closed spec fn program_spec(&self) -> Program {
        self.core.program_spec()
    }

    /// The number of values after which a chunk is given out.
    pub closed spec fn threshold(&self) -> u64 {
        self.chunk_threshold
    }

    /// The parts fit together.
    pub closed spec fn wf(&self) -> bool {
        self.core.wf()
    }

    /// The program has halted.
    pub closed spec fn halted(&self) -> bool {
        self.finished
    }

    /// Create a runner at the start of a program, its image loaded.
    pub fn new(program: Arc<Program>, chunk_threshold: u64) -> (r: Self)
        requires
            program.wf(),
        ensures
            r.wf(),
            !r.halted(),
            r.program_spec() == *program,
            r.threshold() == chunk_threshold,
            executor::image_laid_over(program.image@, executor::fresh(*program), r.engine()),
    {
        let mut core: MinimalExecutor = MinimalExecutor::new(program);
        core.load_image();
        MinimalRunner { core, chunk_threshold, finished: false }
    }

    /// Adds a hint behind the others.
    pub fn with_input(&mut self, input: Vec<u8>)
        requires
            old(self).wf(),
        ensures
            final(self).wf(),
            final(self).program_spec() == old(self).program_spec(),
            final(self).threshold() == old(self).threshold(),
            final(self).halted() == old(self).halted(),
            final(self).engine() == (Engine {
                cpu: executor::with_ram(
                    old(self).engine().cpu,
                    (Ram {
                        input: old(self).engine().cpu.bus->Live_0.input.push(input@),
                        ..old(self).engine().cpu.bus->Live_0
                    }),
                ),
                ..old(self).engine()
            }),
    {
        self.core.add_input(input);
    }

    /// The program.
    pub fn program(&self) -> (r: &Arc<Program>)
        ensures
            **r == self.program_spec(),
    {
        self.core.program()
    }

    /// The number of instructions retired outside unconstrained blocks.
    pub fn global_clk(&self) -> (r: u64)
        ensures
            r == self.engine().global_clk,
    {
        self.core.global_clk()
    }

    /// The clock.
    pub fn clk(&self) -> (r: u64)
        ensures
            r == self.engine().cpu.clk,
    {
        self.core.clk()
    }

    /// The program counter.
    pub fn pc(&self) -> (r: u32)
        ensures
            r == self.engine().cpu.pc,
    {
        self.core.pc()
    }

    /// The register file.
    pub fn registers(&self) -> (r: [u32; 36])
        ensures
            r@ == self.engine().cpu.regs,
    {
        self.core.registers()
    }

    /// The public values so far.
    pub fn public_values_stream(&self) -> (r: &Vec<u8>)
        ensures
            r@ == self.engine().cpu.output,
    {
        self.core.public_values_stream()
    }

    /// The words of memory that were accessed, in increasing order of address.
    pub fn touched_memory(&self) -> (r: Vec<(u32, MemoryRecord)>)
        requires
            self.wf(),
        ensures
            exists|items: Seq<(u32, MemoryRecord)>| #[trigger]
                globals::lists_records(items, self.engine().cpu.bus->Live_0.mem.seen) && r@
                    == globals::accessed(items, items.len()),
    {
        let items: Vec<(u32, MemoryRecord)> = self.core.memory_records();
        globals::accessed_records(&items)
    }

    /// Runs until the chunk is full or the program ends; nothing if the program had halted.
    pub fn try_next_chunk(&mut self) -> (r: Result<Option<Chunk>, ExecutionError>)
        requires
            old(self).wf(),
            !old(self).halted() ==> old(self).program_spec().contains_pc(old(self).engine().cpu.pc),
        ensures
            final(self).wf(),
            final(self).program_spec() == old(self).program_spec(),
            final(self).threshold() == old(self).threshold(),
            old(self).halted() ==> r == Ok::<Option<Chunk>, ExecutionError>(None)
                && *final(self) == *old(self),
            !old(self).halted() ==> ({
                let program = old(self).program_spec();
                let start = old(self).engine();
                let n = (final(self).engine().cpu.retired - start.cpu.retired) as nat;
                match r {
                    Ok(None) => false,
                    Ok(Some(chunk)) => {
                        &&& n >= 1
                        &&& goes_on(start, program, old(self).threshold(), (n - 1) as nat)
                        &&& start.after(program, n) matches Some(end) && {
                            &&& final(self).engine() == drained(end)
                            &&& chunk.done == end.cpu.done(program)
                            &&& final(self).halted() == chunk.done
                            &&& chunk.done || logged(end) >= old(self).threshold()
                            &&& chunk.oracle@ == values(end.cpu.bus->Live_0.log)
                            &&& chunk.pc_start == start.cpu.pc
                            &&& chunk.next_pc_start == start.cpu.next_pc
                            &&& chunk.clk_start == start.cpu.clk
                            &&& chunk.global_clk_start == start.global_clk
                        }
                    },
                    Err(e) => !final(self).halted() && exists|k: nat|
                        goes_on(start, program, old(self).threshold(), k) && (
                        #[trigger] start.after(program, k) matches Some(last) && last.steps_to(
                            program,
                            final(self).engine(),
                            Err(e),
                        )),
                }
            }),
    {
        if self.finished {
            return Ok(None);
        }
        let pc_start: u32 = self.core.pc();
        let next_pc_start: u32 = self.core.next_pc();
        let clk_start: u64 = self.core.clk();
        let global_clk_start: u64 = self.core.global_clk();
        let ghost start = self.core.engine();
        let ghost program = self.core.program_spec();
        loop
            invariant
                self.core.wf(),
                self.core.program_spec() == program,
                self.chunk_threshold == old(self).chunk_threshold,
                program == old(self).program_spec(),
                start == old(self).engine(),
                !old(self).halted(),
                !self.finished,
                self.core.ready(),
                start.cpu.retired <= self.core.engine().cpu.retired,
                goes_on(
                    start,
                    program,
                    self.chunk_threshold,
                    (self.core.engine().cpu.retired - start.cpu.retired) as nat,
                ),
                start.after(
                    program,
                    (self.core.engine().cpu.retired - start.cpu.retired) as nat,
                ) == Some(self.core.engine()),
                pc_start == start.cpu.pc,
                next_pc_start == start.cpu.next_pc,
                clk_start == start.cpu.clk,
                global_clk_start == start.global_clk,
            decreases u64::MAX - self.core.engine().cpu.retired,
        {
            let ghost before = self.core.engine();
            let ghost n = (before.cpu.retired - start.cpu.retired) as nat;
            let done: bool = match self.core.execute_instruction() {
                Ok(done) => done,
                Err(e) => {
                    proof {
                        assert(start.after(program, n) == Some(before));
                    }
                    return Err(e);
                },
            };
            proof {
                assert(start.after(program, n + 1) == Some(self.core.engine()));
            }
            let len: usize = self.core.log_len();
            if done || len as u64 >= self.chunk_threshold {
                let log: Vec<MemValue> = self.core.take_log();
                let oracle: Vec<u32> = log_values(&log);
                self.finished = done;
                return Ok(
                    Some(
                        Chunk {
                            oracle,
                            pc_start,
                            next_pc_start,
                            clk_start,
                            global_clk_start,
                            done,
                        },
                    ),
                );
            }
        }
    }

    /// Adds to a record the events of every register and word that the run initializes and
    /// finalizes. To be called once, after the last chunk.
    pub fn emit_globals(&self, record: &mut ExecutionRecord)
        requires
            self.wf(),
        ensures
            exists|items: Seq<(u32, MemoryRecord)>|
                {
                    &&& #[trigger] globals::lists_records(
                        items,
                        self.engine().cpu.bus->Live_0.mem.seen,
                    )
                    &&& final(record).global_memory_initialize_events@ == old(
                        record,
                    ).global_memory_initialize_events@ + register_starts(
                        self.engine(),
                        self.program_spec(),
                        NUM_REGISTERS as nat,
                    ) + globals::initialized(
                        items,
                        self.engine().cpu.bus->Live_0.seeds,
                        self.program_spec().image@,
                        items.len(),
                    )
                    &&& final(record).global_memory_finalize_events@ == old(
                        record,
                    ).global_memory_finalize_events@ + register_ends(
                        self.engine(),
                        NUM_REGISTERS as nat,
                    ) + globals::finalized(items, items.len())
                },
            *final(record) == (ExecutionRecord {
                global_memory_initialize_events: final(record).global_memory_initialize_events,
                global_memory_finalize_events: final(record).global_memory_finalize_events,
                ..*old(record)
            }),
    {
        broadcast use vstd::std_specs::btree::group_btree_axioms;

        let ghost e = self.engine();
        let ghost program = self.program_spec();
        let zero: MemoryRecord = match self.core.register_record(0) {
            Some(record) => record,
            None => MemoryRecord { value: 0, timestamp: 1 },
        };
        record.global_memory_finalize_events.push(
            MemoryInitializeFinalizeEvent::finalize_from_record(0, &zero),
        );
        record.global_memory_initialize_events.push(MemoryInitializeFinalizeEvent::initialize(0, 0));
        let mut addr: u32 = 1;
        proof {
            assert(register_starts(e, program, 0) =~= Seq::empty());
            assert(register_ends(e, 0) =~= Seq::empty());
        }
        while addr < NUM_REGISTERS as u32
            invariant
                1 <= addr <= NUM_REGISTERS,
                self.wf(),
                e == self.engine(),
                program == self.program_spec(),
                *record == (ExecutionRecord {
                    global_memory_initialize_events: record.global_memory_initialize_events,
                    global_memory_finalize_events: record.global_memory_finalize_events,
                    ..*old(record)
                }),
                record.global_memory_initialize_events@ =~= old(
                    record,
                ).global_memory_initialize_events@ + register_starts(e, program, addr as nat),
                record.global_memory_finalize_events@ =~= old(record).global_memory_finalize_events@
                    + register_ends(e, addr as nat),
            decreases NUM_REGISTERS - addr,
        {
            if let Some(end) = self.core.register_record(addr as usize) {
                if self.core.program().image.get(&addr).is_none() {
                    let value: u32 = if addr % 4 == 0 {
                        match self.core.seeds().get(addr) {
                            Some(v) => *v,
                            None => 0,
                        }
                    } else {
                        0
                    };
                    record.global_memory_initialize_events.push(
                        MemoryInitializeFinalizeEvent::initialize(addr, value),
                    );
                }
                record.global_memory_finalize_events.push(
                    MemoryInitializeFinalizeEvent::finalize_from_record(addr, &end),
                );
            }
            addr = addr + 1;
        }
        let items: Vec<(u32, MemoryRecord)> = self.core.memory_records();
        proof {
            assert forall|i: int| 0 <= i < items@.len() implies memory::addressable(
                (#[trigger] items@[i]).0,
            ) by {
                lemma_listed(items@, self.core.engine().cpu.bus->Live_0.mem.seen, i);
                self.core.lemma_words_are_addressable(memory::slot(items@[i].0));
            }
        }
        add_memory_events(
            &items,
            self.core.seeds(),
            &self.core.program().image,
            &mut record.global_memory_initialize_events,
            &mut record.global_memory_finalize_events,
        );
    }
}

proof fn lemma_listed(items: Seq<(u32, MemoryRecord)>, mem: Map<int, MemoryRecord>, i: int)
    requires
        globals::lists_records(items, mem),
        0 <= i < items.len(),
    ensures
        mem.contains_key(memory::slot(items[i].0)),
{
    let keys = items.map_values(|x: (u32, MemoryRecord)| x.0);
    assert(keys[i] == items[i].0);
}

/// The value of a register at the start of a run if the image does not say.
pub open spec fn register_seed(e: Engine, addr: u32) -> u32 {
    if addr % 4 == 0 {
        globals::seed(e.cpu.bus->Live_0.seeds, addr)
    } else {
        0
    }
}

/// The events of the registers among the first `n` that a run initializes: the first one always,
/// the others if they were accessed and the image does not hold them.
pub open spec fn register_starts(e: Engine, program: Program, n: nat) -> Seq<
    MemoryInitializeFinalizeEvent,
>
    decreases n,
{
    if n == 0 {
        Seq::empty()
    } else {
        let before = register_starts(e, program, (n - 1) as nat);
        let addr = (n - 1) as u32;
        if addr == 0 {
            before.push(MemoryInitializeFinalizeEvent { addr: 0, value: 0, timestamp: 0 })
        } else if e.times.touched[addr as int] && !program.image@.contains_key(addr) {
            before.push(
                MemoryInitializeFinalizeEvent {
                    addr,
                    value: register_seed(e, addr),
                    timestamp: 0,
                },
            )
        } else {
            before
        }
    }
}

/// The events of the registers among the first `n` that a run finalizes.
pub open spec fn register_ends(e: Engine, n: nat) -> Seq<MemoryInitializeFinalizeEvent>
    decreases n,
{
    if n == 0 {
        Seq::empty()
    } else {
        let before = register_ends(e, (n - 1) as nat);
        let addr = (n - 1) as u32;
        match executor::register_end(e, addr as int) {
            Some(record) => before.push(
                MemoryInitializeFinalizeEvent {
                    addr,
                    value: record.value,
                    timestamp: record.timestamp,
                },
            ),
            None => if addr == 0 {
                before.push(MemoryInitializeFinalizeEvent { addr: 0, value: 0, timestamp: 1 })
            } else {
                before
            },
        }
    }
}

/// The values of a log.
fn log_values(log: &Vec<MemValue>) -> (r: Vec<u32>)
    ensures
        r@ == values(log@),
{
    let mut r: Vec<u32> = Vec::new();
    let mut i: usize = 0;
    while i < log.len()
        invariant
            i <= log@.len(),
            r@ =~= values(log@.take(i as int)),
        decreases log@.len() - i,
    {
        r.push(log[i].value);
        i = i + 1;
    }
    proof {
        assert(log@.take(i as int) =~= log@);
    }
    r
}

} // verus!
