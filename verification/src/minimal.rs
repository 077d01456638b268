//! The chunked interpreter: runs a program on live memory and cuts the log of its accesses into
//! chunks that can be replayed.
pub mod console;
pub mod diff_memory;
pub mod executor;
pub mod runner;

use std::collections::{BTreeMap, VecDeque};
use std::sync::Arc;

use vstd::prelude::*;

use crate::core_vm::{CoreVM, MemSource};
use crate::errors::ExecutionError;
use crate::events::{MemValue, MemoryInitializeFinalizeEvent, MemoryRecord};
use crate::globals::{self, accessed_records, add_memory_events, list_unforked};
use crate::hook::{self, HookRegistry};
use crate::machine::{Bus, Cpu, Ram};
use crate::memory::{self, MaybeCowMemory, PagedMemory};
use crate::opcode::NUM_OPCODES;
use crate::program::Program;
use crate::register::NUM_REGISTERS;
use crate::sources::LiveMemory;
use crate::syscalls::{MAX_SYSCALL_CYCLES, NUM_SYSCALLS};
use crate::trace::TraceChunk;

verus! {

/// Registers and memory hold an initial image and nothing else: addresses below the register
/// count seed registers, the others memory words.
pub open spec fn image_loaded(
    image: Map<u32, u32>,
    regs: Seq<u32>,
    mem: Map<int, MemoryRecord>,
) -> bool {
    &&& regs.len() == NUM_REGISTERS
    &&& forall|i: u32|
        i < NUM_REGISTERS ==> #[trigger] regs[i as int] == (if image.contains_key(i) {
            image[i]
        } else {
            0
        })
    &&& words_laid(image, Map::empty(), mem)
}

/// An address is the last one of an image that belongs to a word.
pub open spec fn is_last_at(image: Map<u32, u32>, k: int, a: u32) -> bool {
    &&& a >= NUM_REGISTERS
    &&& image.contains_key(a)
    &&& memory::slot(a) == k
    &&& forall|b: u32|
        b >= NUM_REGISTERS && #[trigger] image.contains_key(b) && memory::slot(b) == k ==> b <= a
}

/// An image is laid over the words of a memory. Where it holds several addresses of a word, the
/// last one counts.
pub open spec fn words_laid(
    image: Map<u32, u32>,
    before: Map<int, MemoryRecord>,
    after: Map<int, MemoryRecord>,
) -> bool {
    &&& forall|a: u32|
        a >= NUM_REGISTERS && #[trigger] image.contains_key(a) ==> after.contains_key(
            memory::slot(a),
        )
    &&& forall|k: int| #[trigger]
        after.contains_key(k) ==> {
            ||| exists|a: u32| #[trigger]
                is_last_at(image, k, a) && after[k] == (MemoryRecord {
                    value: image[a],
                    timestamp: 0,
                })
            ||| before.contains_key(k) && after[k] == before[k] && forall|a: u32|
                a >= NUM_REGISTERS && #[trigger] image.contains_key(a) ==> memory::slot(a) != k
        }
    &&& forall|k: int| #[trigger] before.contains_key(k) ==> after.contains_key(k)
}

/// The words after the first `n` entries of a list are stored.
pub open spec fn stored(
    listed: Seq<(u32, u32)>,
    n: nat,
    before: Map<int, MemoryRecord>,
) -> Map<int, MemoryRecord>
    decreases n,
{
    if n == 0 {
        before
    } else {
        let (addr, value) = listed[n - 1];
        let words = stored(listed, (n - 1) as nat, before);
        if addr >= NUM_REGISTERS {
            words.insert(memory::slot(addr), MemoryRecord { value, timestamp: 0 })
        } else {
            words
        }
    }
}

/// An entry of a list is the last one among the first `n` that belongs to a word.
spec fn last_of(listed: Seq<(u32, u32)>, n: nat, k: int, j: int) -> bool {
    &&& 0 <= j < n
    &&& listed[j].0 >= NUM_REGISTERS
    &&& memory::slot(listed[j].0) == k
    &&& forall|m: int|
        j < m < n && (#[trigger] listed[m]).0 >= NUM_REGISTERS ==> memory::slot(listed[m].0) != k
}

proof fn lemma_stored(listed: Seq<(u32, u32)>, n: nat, before: Map<int, MemoryRecord>)
    requires
        n <= listed.len(),
    ensures
        ({
            let words = stored(listed, n, before);
            &&& forall|j: int|
                0 <= j < n && (#[trigger] listed[j]).0 >= NUM_REGISTERS ==> words.contains_key(
                    memory::slot(listed[j].0),
                )
            &&& forall|k: int| #[trigger]
                words.contains_key(k) ==> {
                    ||| exists|j: int| #[trigger]
                        last_of(listed, n, k, j) && words[k] == (MemoryRecord {
                            value: listed[j].1,
                            timestamp: 0,
                        })
                    ||| before.contains_key(k) && words[k] == before[k] && forall|j: int|
                        0 <= j < n && (#[trigger] listed[j]).0 >= NUM_REGISTERS ==> memory::slot(
                            listed[j].0,
                        ) != k
                }
            &&& forall|k: int| #[trigger] before.contains_key(k) ==> words.contains_key(k)
        }),
    decreases n,
{
    if n > 0 {
        let m = (n - 1) as nat;
        lemma_stored(listed, m, before);
        let words = stored(listed, n, before);
        let former = stored(listed, m, before);
        let (addr, value) = listed[n - 1];
        assert forall|k: int| #[trigger] words.contains_key(k) implies {
            ||| exists|j: int| #[trigger]
                last_of(listed, n, k, j) && words[k] == (MemoryRecord {
                    value: listed[j].1,
                    timestamp: 0,
                })
            ||| before.contains_key(k) && words[k] == before[k] && forall|j: int|
                0 <= j < n && (#[trigger] listed[j]).0 >= NUM_REGISTERS ==> memory::slot(
                    listed[j].0,
                ) != k
        } by {
            if addr >= NUM_REGISTERS && memory::slot(addr) == k {
                assert(last_of(listed, n, k, n - 1));
            } else {
                assert(former.contains_key(k));
                if exists|j: int| #[trigger]
                    last_of(listed, m, k, j) && former[k] == (MemoryRecord {
                        value: listed[j].1,
                        timestamp: 0,
                    }) {
                    let j = choose|j: int| #[trigger]
                        last_of(listed, m, k, j) && former[k] == (MemoryRecord {
                            value: listed[j].1,
                            timestamp: 0,
                        });
                    assert(last_of(listed, n, k, j));
                }
            }
        }
    }
}

/// The list holds exactly the entries of an image, in increasing order of address.
pub open spec fn lists_image(listed: Seq<(u32, u32)>, image: Map<u32, u32>) -> bool {
    &&& forall|j: int|
        0 <= j < listed.len() ==> image.contains_key((#[trigger] listed[j]).0)
            && image[listed[j].0] == listed[j].1
    &&& forall|a: u32| #[trigger]
        image.contains_key(a) ==> exists|j: int|
            0 <= j < listed.len() && (#[trigger] listed[j]) == (a, image[a])
    &&& forall|i: int, j: int|
        0 <= i < j < listed.len() ==> (#[trigger] listed[i]).0 < (#[trigger] listed[j]).0
}

/// Storing the entries of an image in order lays it over the words.
pub proof fn lemma_words_laid(
    listed: Seq<(u32, u32)>,
    image: Map<u32, u32>,
    before: Map<int, MemoryRecord>,
)
    requires
        lists_image(listed, image),
    ensures
        words_laid(image, before, stored(listed, listed.len(), before)),
{
    let n = listed.len();
    let after = stored(listed, n, before);
    lemma_stored(listed, n, before);
    assert forall|a: u32|
        a >= NUM_REGISTERS && #[trigger] image.contains_key(a) implies after.contains_key(
        memory::slot(a),
    ) by {
        let j = choose|j: int| 0 <= j < n && (#[trigger] listed[j]) == (a, image[a]);
        assert(listed[j].0 >= NUM_REGISTERS);
    }
    assert forall|k: int| #[trigger] after.contains_key(k) implies {
        ||| exists|a: u32| #[trigger]
            is_last_at(image, k, a) && after[k] == (MemoryRecord { value: image[a], timestamp: 0 })
        ||| before.contains_key(k) && after[k] == before[k] && forall|a: u32|
            a >= NUM_REGISTERS && #[trigger] image.contains_key(a) ==> memory::slot(a) != k
    } by {
        if exists|j: int| #[trigger]
            last_of(listed, n, k, j) && after[k] == (MemoryRecord {
                value: listed[j].1,
                timestamp: 0,
            }) {
            let j = choose|j: int| #[trigger]
                last_of(listed, n, k, j) && after[k] == (MemoryRecord {
                    value: listed[j].1,
                    timestamp: 0,
                });
            let a = listed[j].0;
            assert forall|b: u32|
                b >= NUM_REGISTERS && #[trigger] image.contains_key(b) && memory::slot(b)
                    == k implies b <= a by {
                let m = choose|m: int| 0 <= m < n && (#[trigger] listed[m]) == (b, image[b]);
                assert(listed[m].0 == b);
                if j < m {
                    assert(memory::slot(listed[m].0) != k);
                }
            }
            assert(is_last_at(image, k, a));
        } else {
            assert forall|a: u32|
                a >= NUM_REGISTERS && #[trigger] image.contains_key(a) implies memory::slot(a) != k by {
                let j = choose|j: int| 0 <= j < n && (#[trigger] listed[j]) == (a, image[a]);
                assert(listed[j].0 == a);
            }
        }
    }
}

/// A list of the entries of an initial image, in increasing order of address.
pub(crate) fn listed_image(image: &BTreeMap<u32, u32>) -> (listed: Vec<(u32, u32)>)
    ensures
        lists_image(listed@, image@),
{
    broadcast use vstd::std_specs::btree::group_btree_axioms;

    let mut listed: Vec<(u32, u32)> = Vec::new();
    let keys: Vec<u32> = listed_keys(image);
    let mut i: usize = 0;
    while i < keys.len()
        invariant
            i <= keys@.len(),
            listed@.len() == i,
            forall|j: int| 0 <= j < keys@.len() ==> image@.contains_key(#[trigger] keys@[j]),
            forall|j: int| 0 <= j < i ==> #[trigger] listed@[j] == (keys@[j], image@[keys@[j]]),
        decreases keys@.len() - i,
    {
        let addr: u32 = keys[i];
        if let Some(value) = image.get(&addr) {
            listed.push((addr, *value));
        }
        i = i + 1;
    }
    proof {
        assert forall|a: u32| #[trigger] image@.contains_key(a) implies exists|j: int|
            0 <= j < listed@.len() && (#[trigger] listed@[j]) == (a, image@[a]) by {
            let j = keys@.index_of(a);
            assert(keys@[j] == a);
            assert(listed@[j] == (a, image@[a]));
        }
        assert forall|i: int, j: int|
            0 <= i < j < listed@.len() implies (#[trigger] listed@[i]).0 < (#[trigger] listed@[j]).0 by {
            assert(keys@[i] < keys@[j]);
        }
    }
    listed
}

/// Keys that increase are numbers that increase.
proof fn lemma_increasing(keys: Seq<u32>)
    requires
        vstd::std_specs::btree::increasing_seq(keys),
    ensures
        forall|i: int, j: int| 0 <= i < j < keys.len() ==> #[trigger] keys[i] < #[trigger] keys[j],
{
    broadcast use {vstd::std_specs::btree::group_btree_axioms, vstd::laws_cmp::group_laws_cmp};

    assert(vstd::laws_cmp::obeys_cmp::<u32>());
    assert forall|i: int, j: int| 0 <= i < j < keys.len() implies #[trigger] keys[i]
        < #[trigger] keys[j] by {
        assert(vstd::std_specs::cmp::OrdSpec::cmp_spec(&keys[i], &keys[j]) is Less);
    }
}

/// The addresses of an image, in increasing order.
fn listed_keys(image: &BTreeMap<u32, u32>) -> (listed: Vec<u32>)
    ensures
        forall|j: int| 0 <= j < listed@.len() ==> image@.contains_key(#[trigger] listed@[j]),
        forall|a: u32| #[trigger] image@.contains_key(a) ==> listed@.contains(a),
        forall|i: int, j: int|
            0 <= i < j < listed@.len() ==> #[trigger] listed@[i] < #[trigger] listed@[j],
{
    broadcast use vstd::std_specs::btree::group_btree_axioms;

    let mut listed: Vec<u32> = Vec::new();
    let entries = image.iter();
    let ghost pairs = vstd::std_specs::iter::IteratorSpec::remaining(&entries);
    proof {
        lemma_increasing(pairs.map_values(|kv: (&u32, &u32)| *kv.0));
    }
    for kv in it: entries
        invariant
            it.seq() == pairs,
            listed@ == pairs.take(it.index() as int).map_values(|kv: (&u32, &u32)| *kv.0),
    {
        listed.push(*kv.0);
        proof {
            assert(listed@ =~= pairs.take(it.index() + 1).map_values(|kv: (&u32, &u32)| *kv.0));
        }
    }
    proof {
        assert(listed@ =~= pairs.map_values(|kv: (&u32, &u32)| *kv.0));
        assert forall|a: u32| #[trigger] image@.contains_key(a) implies listed@.contains(a) by {
            assert(pairs.contains((&a, &image@[a])));
            let j = pairs.index_of((&a, &image@[a]));
            assert(listed@[j] == a);
        }
    }
    listed
}

/// Loads an initial image.
fn load_image(program: &Program) -> (r: ([u32; 36], PagedMemory<MemoryRecord>))
    requires
        program.wf(),
    ensures
        r.1.wf(),
        image_loaded(program.image@, r.0@, r.1@),
{
    let mut registers: [u32; 36] = [0u32; 36];
    let mut page_table: PagedMemory<MemoryRecord> = PagedMemory::new_preallocated();
    let image = &program.image;
    let listed: Vec<(u32, u32)> = listed_image(image);
    let mut i: usize = 0;
    while i < listed.len()
        invariant
            i <= listed@.len(),
            image == &program.image,
            program.wf(),
            page_table.wf(),
            lists_image(listed@, image@),
            page_table@ == stored(listed@, i as nat, Map::empty()),
            forall|j: int|
                0 <= j < i && (#[trigger] listed@[j]).0 < NUM_REGISTERS
                    ==> registers@[listed@[j].0 as int] == listed@[j].1,
            forall|r: u32|
                r < NUM_REGISTERS ==> #[trigger] registers@[r as int] == 0 || image@.contains_key(r)
                    && registers@[r as int] == image@[r],
        decreases listed@.len() - i,
    {
        let (addr, value) = listed[i];
        if (addr as usize) < NUM_REGISTERS {
            registers[addr as usize] = value;
        } else {
            proof {
                assert(program.image@.contains_key(addr));
            }
            page_table.insert(addr, MemoryRecord { value, timestamp: 0 });
        }
        i = i + 1;
    }
    proof {
        lemma_words_laid(listed@, image@, Map::empty());
    }
    (registers, page_table)
}

/// Whether the log of the current chunk is full at a place where it may be cut: never between a
/// branch or jump and its delay slot.
pub open spec fn chunk_full(c: Cpu, max_trace_size: u64) -> bool {
    c.bus->Live_0.log.len() >= max_trace_size && !c.delay
}

/// Whether a limit on the number of instructions is reached.
pub open spec fn over_limit(c: Cpu, max_cycles: Option<u64>) -> bool {
    max_cycles matches Some(max) && c.retired >= max
}

/// What a chunked run depends on besides the machine.
pub struct Setup {
    pub program: Program,
    pub max_syscall_cycles: u32,
    pub max_trace_size: u64,
    pub max_cycles: Option<u64>,
}

impl Setup {
    /// The machine after `n` instructions from `start`.
    pub open spec fn after(self, start: Cpu, n: nat) -> Option<Cpu> {
        start.steps(self.program, self.max_syscall_cycles, n)
    }

    /// After each of the first `n` instructions the run goes on.
    pub open spec fn goes_on(self, start: Cpu, n: nat) -> bool {
        forall|k: nat|
            1 <= k <= n ==> (#[trigger] self.after(start, k) matches Some(c) && !c.done(self.program)
                && !chunk_full(c, self.max_trace_size) && !over_limit(c, self.max_cycles))
    }

    /// The run stops after `n` instructions: the program has ended or the chunk is full.
    pub open spec fn stops(self, start: Cpu, n: nat) -> bool {
        &&& n >= 1
        &&& self.goes_on(start, (n - 1) as nat)
        &&& self.after(start, n) matches Some(end) && !over_limit(end, self.max_cycles) && (
        end.done(self.program) || chunk_full(end, self.max_trace_size))
    }

    /// The run fails after `n` instructions: the next one fails, or the limit is reached.
    pub open spec fn fails(self, start: Cpu, n: nat, e: ExecutionError, end: Cpu) -> bool {
        ||| {
            &&& self.goes_on(start, n)
            &&& self.after(start, n) matches Some(c) && c.step(
                self.program,
                self.max_syscall_cycles,
            ) == (end, Err::<(), ExecutionError>(e))
        }
        ||| {
            &&& n >= 1
            &&& self.goes_on(start, (n - 1) as nat)
            &&& self.after(start, n) == Some(end)
            &&& over_limit(end, self.max_cycles)
            &&& e == ExecutionError::ExceededCycleLimit(self.max_cycles->Some_0)
        }
    }
}

/// A chunk is cut as soon as its log is full: wherever the run went on with a full log it was behind a
/// branch or jump whose delay slot was still to come. It is cut nowhere between the two, and the
/// limit on the number of instructions is never passed in silence.
pub proof fn a_chunk_is_cut_as_soon_as_it_is_full(setup: Setup, start: Cpu, n: nat, k: nat)
    requires
        setup.stops(start, n),
        1 <= k <= n,
    ensures
        setup.after(start, k) is Some,
        ({
            let mid = setup.after(start, k)->Some_0;
            &&& k < n && mid.bus->Live_0.log.len() >= setup.max_trace_size ==> mid.delay
            &&& k < n ==> !mid.done(setup.program)
            &&& k == n && !mid.done(setup.program) ==> !mid.delay && mid.bus->Live_0.log.len()
                >= setup.max_trace_size
            &&& setup.max_cycles matches Some(most) ==> mid.retired < most
        }),
{
}

/// The machine with an empty log.
pub open spec fn log_taken(c: Cpu) -> Cpu {
    c.with_bus(Bus::Live(Ram { log: Seq::empty(), ..c.bus->Live_0 }))
}

/// A machine at the start of a program: the image is loaded, the clock is at one, and nothing has
/// happened yet.
pub open spec fn starts_at(
    c: Cpu,
    program: Program,
    input: Seq<Seq<u8>>,
    hooks: Map<u32, hook::Hook>,
) -> bool {
    &&& c.bus matches Bus::Live(ram) && {
        &&& image_loaded(program.image@, c.regs, ram.mem.seen)
        &&& ram.mem.saved is None
        &&& ram.log.len() == 0
        &&& ram.seeds == Map::<int, u32>::empty()
        &&& ram.input == input
        &&& ram.hooks == hooks
        &&& !ram.eager
    }
    &&& c.pc == program.pc_start
    &&& c.next_pc == program.pc_start.wrapping_add(4)
    &&& c.clk == 1
    &&& !c.delay
    &&& !c.exited
    &&& c.output.len() == 0
    &&& c.fork is None
    &&& c.retired == 0
    &&& c.opcodes == Seq::new(NUM_OPCODES as nat, |i: int| 0u64)
    &&& c.syscalls == Seq::new(NUM_SYSCALLS as nat, |i: int| 0u64)
}

/// A full-speed interpreter that logs the preimage of every memory access.
pub struct MinimalExecutor {
    core: CoreVM<LiveMemory>,
    /// Set once the program has ended, which is only looked at after an instruction has retired:
    /// the address zero that marks the end is also where a program may start.
    finished: bool,
    max_trace_size: u64,
    max_cycles: Option<u64>,
}

impl MinimalExecutor {
    /// The machine in mathematical terms.
    pub closed spec fn cpu(&self) -> Cpu {
        self.core.cpu()
    }

    /// Whether the program has ended.
    pub closed spec fn is_finished(&self) -> bool {
        self.finished
    }

    /// What the run depends on besides the machine.
    pub closed spec fn setup(&self) -> Setup {
        Setup {
            program: *self.core.program,
            max_syscall_cycles: self.core.max_syscall_cycles,
            max_trace_size: self.max_trace_size,
            max_cycles: self.max_cycles,
        }
    }

    /// The parts fit together; between chunks the log is empty.
    pub closed spec fn wf(&self) -> bool {
        &&& self.core.wf()
        &&& !self.finished ==> self.core.program.contains_pc(self.core.pc)
    }

    /// The program is valid.
    pub proof fn lemma_program_is_valid(&self)
        requires
            self.wf(),
        ensures
            self.setup().program.wf(),
    {
    }

    /// Until the program has ended there is an instruction to execute.
    pub proof fn lemma_unfinished_is_ready(&self)
        requires
            self.wf(),
            !self.is_finished(),
        ensures
            self.setup().program.contains_pc(self.cpu().pc),
    {
    }

    /// Between chunks the log is empty.
    pub closed spec fn at_boundary(&self) -> bool {
        self.core.mem.oracle_log@.len() == 0
    }

    /// Create an executor without hints and hooks.
    pub fn new(program: Arc<Program>, max_trace_size: u64) -> (r: Self)
        requires
            program.wf(),
            program.contains_pc(program.pc_start),
        ensures
            r.wf(),
            r.at_boundary(),
            !r.is_finished(),
            r.starts(*program, max_trace_size, None, Seq::empty(), Map::empty()),
    {
        let r = Self::new_with_context(
            program,
            max_trace_size,
            VecDeque::new(),
            HookRegistry::empty(),
            None,
        );
        proof {
            assert(hook::contents(Seq::<Vec<u8>>::empty()) =~= Seq::<Seq<u8>>::empty());
        }
        r
    }

    /// Create an executor with hints, without hooks.
    pub fn new_with_stdin(program: Arc<Program>, max_trace_size: u64, stdin: VecDeque<Vec<u8>>) -> (r: Self)
        requires
            program.wf(),
            program.contains_pc(program.pc_start),
        ensures
            r.wf(),
            r.at_boundary(),
            !r.is_finished(),
            r.starts(*program, max_trace_size, None, hook::contents(stdin@), Map::empty()),
    {
        Self::new_with_context(program, max_trace_size, stdin, HookRegistry::empty(), None)
    }

    /// The executor stands at the start of a program.
    pub open spec fn starts(
        &self,
        program: Program,
        max_trace_size: u64,
        max_cycles: Option<u64>,
        input: Seq<Seq<u8>>,
        hooks: Map<u32, hook::Hook>,
    ) -> bool {
        &&& self.setup() == (Setup {
            program,
            max_syscall_cycles: MAX_SYSCALL_CYCLES,
            max_trace_size,
            max_cycles,
        })
        &&& starts_at(self.cpu(), program, input, hooks)
    }

    /// Create an executor with hints, hooks and a limit on the number of instructions.
    pub fn new_with_context(
        program: Arc<Program>,
        max_trace_size: u64,
        stdin: VecDeque<Vec<u8>>,
        hook_registry: HookRegistry,
        max_cycles: Option<u64>,
    ) -> (r: Self)
        requires
            program.wf(),
            program.contains_pc(program.pc_start),
        ensures
            r.wf(),
            r.at_boundary(),
            !r.is_finished(),
            r.starts(
                *program,
                max_trace_size,
                max_cycles,
                hook::contents(stdin@),
                hook_registry.hooks(),
            ),
    {
        let (registers, page_table) = load_image(&program);
        let mut mem: LiveMemory = LiveMemory::new(stdin, hook_registry);
        mem.page_table = MaybeCowMemory::Owned(page_table);
        let pc: u32 = program.pc_start;
        let core: CoreVM<LiveMemory> = CoreVM::new(program, registers, mem, pc, 1, MAX_SYSCALL_CYCLES);
        MinimalExecutor { core, finished: false, max_trace_size, max_cycles }
    }

    /// The register file.
    pub fn registers(&self) -> (r: [u32; 36])
        ensures
            r@ == self.cpu().regs,
    {
        self.core.registers
    }

    /// The program counter.
    pub fn pc(&self) -> (r: u32)
        ensures
            r == self.cpu().pc,
    {
        self.core.pc
    }

    /// The clock.
    pub fn clk(&self) -> (r: u64)
        ensures
            r == self.cpu().clk,
    {
        self.core.clk
    }

    /// The most cycles that any system call takes. A replay of this run needs the same value.
    pub fn max_syscall_cycles(&self) -> (r: u32)
        ensures
            r == self.setup().max_syscall_cycles,
    {
        self.core.max_syscall_cycles
    }

    /// Whether the next instruction fills a delay slot.
    pub fn next_is_delayslot(&self) -> (r: bool)
        ensures
            r == self.cpu().delay,
    {
        self.core.next_is_delayslot
    }

    /// Whether the program has ended.
    pub fn is_done(&self) -> (r: bool)
        ensures
            r == self.cpu().done(self.setup().program),
    {
        self.core.is_done()
    }

    /// The public values so far.
    pub fn public_values_stream(&self) -> (r: &Vec<u8>)
        ensures
            r@ == self.cpu().output,
    {
        &self.core.public_values_stream
    }

    /// The number of instructions retired.
    pub fn retired(&self) -> (r: u64)
        ensures
            r == self.cpu().retired,
    {
        self.core.retired
    }

    /// How often each opcode retired and each system call was made, outside unconstrained blocks.
    pub fn execution_report(&self) -> (r: ExecutionReport)
        ensures
            r.opcode_counts@ == self.cpu().opcodes,
            r.syscall_counts@ == self.cpu().syscalls,
            r.total == self.cpu().retired,
    {
        ExecutionReport {
            opcode_counts: copied(&self.core.opcode_counts),
            syscall_counts: copied(&self.core.syscall_counts),
            total: self.core.retired,
        }
    }

    /// Whether the program had ended when the last chunk ended.
    pub fn finished(&self) -> (r: bool)
        ensures
            r == self.is_finished(),
    {
        self.finished
    }

    /// Whether an unconstrained block is open.
    pub fn is_unconstrained(&self) -> (r: bool)
        ensures
            r == self.cpu().fork is Some,
    {
        self.core.fork.is_some()
    }

    /// The words of memory that were accessed, in increasing order of address. Nothing while the
    /// memory is forked.
    pub fn touched_memory(&self) -> (r: Option<Vec<(u32, MemoryRecord)>>)
        requires
            self.wf(),
        ensures
            r is Some == self.cpu().bus->Live_0.mem.saved is None,
            r matches Some(list) ==> exists|items: Seq<(u32, MemoryRecord)>| #[trigger]
                globals::lists_records(items, self.cpu().bus->Live_0.mem.seen) && list@
                    == globals::accessed(items, items.len()),
    {
        match list_unforked(&self.core.mem.page_table) {
            Some(items) => {
                proof {
                    assert(globals::lists_records(items@, self.cpu().bus->Live_0.mem.seen));
                }
                Some(accessed_records(&items))
            },
            None => None,
        }
    }

    /// The events of the words that the run initializes and finalizes. Registers have none: their
    /// values follow from the run, and the time of their accesses is not kept. Nothing while the
    /// memory is forked.
    pub fn global_memory_events(&self) -> (r: Option<
        (Vec<MemoryInitializeFinalizeEvent>, Vec<MemoryInitializeFinalizeEvent>),
    >)
        requires
            self.wf(),
        ensures
            r is Some == self.cpu().bus->Live_0.mem.saved is None,
            r matches Some(events) ==> exists|items: Seq<(u32, MemoryRecord)>| #[trigger]
                globals::lists_records(items, self.cpu().bus->Live_0.mem.seen) && events.0@
                    == globals::initialized(
                    items,
                    self.cpu().bus->Live_0.seeds,
                    self.setup().program.image@,
                    items.len(),
                ) && events.1@ == globals::finalized(items, items.len()),
    {
        match list_unforked(&self.core.mem.page_table) {
            Some(items) => {
                proof {
                    assert forall|i: int| 0 <= i < items@.len() implies memory::addressable(
                        (#[trigger] items@[i]).0,
                    ) by {
                        let keys = items@.map_values(|x: (u32, MemoryRecord)| x.0);
                        assert(keys[i] == items@[i].0);
                        assert(self.core.mem.page_table@.contains_key(memory::slot(keys[i])));
                    }
                }
                proof {
                    assert(globals::lists_records(items@, self.cpu().bus->Live_0.mem.seen));
                }
                let mut initialize: Vec<MemoryInitializeFinalizeEvent> = Vec::new();
                let mut finalize: Vec<MemoryInitializeFinalizeEvent> = Vec::new();
                add_memory_events(
                    &items,
                    &self.core.mem.hint_seed,
                    &self.core.program.image,
                    &mut initialize,
                    &mut finalize,
                );
                proof {
                    assert(Seq::<MemoryInitializeFinalizeEvent>::empty() + globals::initialized(
                        items@,
                        self.core.mem.hint_seed@,
                        self.core.program.image@,
                        items@.len(),
                    ) =~= globals::initialized(
                        items@,
                        self.core.mem.hint_seed@,
                        self.core.program.image@,
                        items@.len(),
                    ));
                    assert(Seq::<MemoryInitializeFinalizeEvent>::empty() + globals::finalized(
                        items@,
                        items@.len(),
                    ) =~= globals::finalized(items@, items@.len()));
                }
                Some((initialize, finalize))
            },
            None => None,
        }
    }

    /// Runs until the log is full at a place where it may be cut or the program ends, and gives
    /// the resulting chunk; nothing if the program had already ended.
    ///
    /// After an error the machine is as the instruction that failed left it, or, where the limit on
    /// the number of instructions is reached, as the last one left it; the log is not taken. Only
    /// in the second case can the program have ended.
    pub fn try_execute_chunk(&mut self) -> (r: Result<Option<TraceChunk>, ExecutionError>)
        requires
            old(self).wf(),
        ensures
            final(self).wf(),
            final(self).setup() == old(self).setup(),
            old(self).is_finished() ==> r == Ok::<Option<TraceChunk>, ExecutionError>(None)
                && *final(self) == *old(self),
            !old(self).is_finished() ==> ({
                let start = old(self).cpu();
                let n = (final(self).cpu().retired - start.retired) as nat;
                match r {
                    Ok(None) => false,
                    Ok(Some(chunk)) => {
                        &&& old(self).setup().stops(start, n)
                        &&& old(self).setup().after(start, n) matches Some(end) && {
                            &&& final(self).cpu() == log_taken(end)
                            &&& final(self).is_finished() == end.done(old(self).setup().program)
                            &&& chunk.start_registers@ == start.regs
                            &&& chunk.pc_start == start.pc
                            &&& chunk.clk_start == start.clk
                            &&& chunk.clk_end == end.clk
                            &&& chunk.mem_reads@ == end.bus->Live_0.log
                        }
                        &&& final(self).at_boundary()
                    },
                    Err(e) => {
                        let setup = old(self).setup();
                        &&& setup.fails(start, n, e, final(self).cpu())
                        &&& final(self).is_finished() == (n >= 1 && (setup.after(start, n) matches Some(
                            last,
                        ) && over_limit(last, setup.max_cycles)) && final(self).cpu().done(
                            setup.program,
                        ))
                    },
                }
            }),
    {
        if self.finished {
            return Ok(None);
        }
        let start_registers: [u32; 36] = self.core.registers;
        let pc_start: u32 = self.core.pc;
        let clk_start: u64 = self.core.clk;
        let ghost start = self.core.cpu();
        let ghost setup = self.setup();
        let mut ended: bool = false;
        let mut full: bool = false;
        while !ended && !full
            invariant
                self.core.wf(),
                self.setup() == setup,
                setup == old(self).setup(),
                start == old(self).cpu(),
                start.bus is Live,
                !self.finished,
                !old(self).finished,
                start.retired <= self.core.retired,
                !ended && !full ==> self.core.program.contains_pc(self.core.pc),
                !ended && !full ==> setup.goes_on(start, (self.core.retired - start.retired) as nat),
                ended || full ==> setup.stops(start, (self.core.retired - start.retired) as nat),
                setup.after(start, (self.core.retired - start.retired) as nat) == Some(
                    self.core.cpu(),
                ),
                ended ==> self.core.cpu().done(setup.program),
                !ended && full ==> !self.core.cpu().done(setup.program),
            decreases u64::MAX - self.core.retired + (if ended || full { 0int } else { 1int }),
        {
            let ghost before = self.core.cpu();
            let ghost n = (before.retired - start.retired) as nat;
            match self.core.execute_instruction() {
                Ok(()) => {},
                Err(e) => {
                    proof {
                        lemma_step_retired(before, setup.program, setup.max_syscall_cycles);
                        lemma_failed_pc(before, setup.program, setup.max_syscall_cycles);
                    }
                    return Err(e);
                },
            }
            proof {
                lemma_step_retired(before, setup.program, setup.max_syscall_cycles);
                assert(setup.after(start, n + 1) == Some(self.core.cpu()));
            }
            if let Some(max) = self.max_cycles {
                if self.core.retired >= max {
                    self.finished = self.core.is_done();
                    return Err(ExecutionError::ExceededCycleLimit(max));
                }
            }
            ended = self.core.is_done();
            full = self.core.mem.oracle_log.len() as u64 >= self.max_trace_size
                && !self.core.next_is_delayslot;
        }
        if ended {
            self.finished = true;
        }
        let mut log: Vec<MemValue> = Vec::new();
        std::mem::swap(&mut log, &mut self.core.mem.oracle_log);
        Ok(
            Some(
                TraceChunk {
                    start_registers,
                    pc_start,
                    clk_start,
                    clk_end: self.core.clk,
                    mem_reads: Arc::new(log),
                },
            ),
        )
    }
}

/// How often each opcode retired and each system call was made.
#[derive(Clone)]
pub struct ExecutionReport {
    pub opcode_counts: Vec<u64>,
    pub syscall_counts: Vec<u64>,
    /// The number of instructions retired.
    pub total: u64,
}

impl ExecutionReport {
    /// The number of instructions retired.
    pub fn total_instruction_count(&self) -> (r: u64)
        ensures
            r == self.total,
    {
        self.total
    }
}

/// A copy of a list of bytes.
pub(crate) fn copied_bytes(bytes: &Vec<u8>) -> (r: Vec<u8>)
    ensures
        r@ == bytes@,
{
    let mut r: Vec<u8> = Vec::new();
    let mut i: usize = 0;
    while i < bytes.len()
        invariant
            i <= bytes@.len(),
            r@ =~= bytes@.take(i as int),
        decreases bytes@.len() - i,
    {
        r.push(bytes[i]);
        i = i + 1;
    }
    r
}

/// A copy of a list of counters.
fn copied(counts: &Vec<u64>) -> (r: Vec<u64>)
    ensures
        r@ == counts@,
{
    let mut r: Vec<u64> = Vec::new();
    let mut i: usize = 0;
    while i < counts.len()
        invariant
            i <= counts@.len(),
            r@ =~= counts@.take(i as int),
        decreases counts@.len() - i,
    {
        r.push(counts[i]);
        i = i + 1;
    }
    r
}

/// An instruction that succeeds is counted; one that fails is not.
pub proof fn lemma_step_retired(c: Cpu, program: Program, max_syscall_cycles: u32)
    ensures
        c.step(program, max_syscall_cycles).1 is Ok ==> c.step(program, max_syscall_cycles).0.retired
            == c.retired + 1,
        c.step(program, max_syscall_cycles).1 is Err ==> c.step(program, max_syscall_cycles).0.retired
            == c.retired,
{
    let start = Cpu { clk: crate::vm::bumped_clk(c.clk, max_syscall_cycles) as u64, ..c };
    crate::replay::lemma_retired(start, program, program.at(c.pc));
}

/// A run counts its instructions.
pub proof fn lemma_run_retired(c: Cpu, program: Program, max_syscall_cycles: u32, n: nat)
    ensures
        c.steps(program, max_syscall_cycles, n) matches Some(d) ==> d.retired == c.retired + n,
    decreases n,
{
    if n > 0 {
        lemma_run_retired(c, program, max_syscall_cycles, (n - 1) as nat);
        if let Some(mid) = c.steps(program, max_syscall_cycles, (n - 1) as nat) {
            lemma_step_retired(mid, program, max_syscall_cycles);
        }
    }
}

/// An instruction that fails leaves the program counter alone.
proof fn lemma_failed_pc(c: Cpu, program: Program, max_syscall_cycles: u32)
    ensures
        c.step(program, max_syscall_cycles).1 is Err ==> c.step(program, max_syscall_cycles).0.pc
            == c.pc,
{
    reveal(Cpu::operate);
    let i = program.at(c.pc);
    let start = Cpu {
        clk: crate::vm::bumped_clk(c.clk, max_syscall_cycles) as u64,
        delay: false,
        ..c
    };
    let code = crate::syscalls::SyscallCode::decode(start.reg(crate::register::Register::V0.number()));
    lemma_failed_dispatch_pc(
        start.counted(code),
        program,
        code,
        start.reg(crate::register::Register::A0.number()),
        start.reg(crate::register::Register::A1.number()),
    );
}

proof fn lemma_failed_dispatch_pc(
    c: Cpu,
    program: Program,
    code: crate::syscalls::SyscallCode,
    arg1: u32,
    arg2: u32,
)
    ensures
        c.dispatch(program, code, arg1, arg2).1 is Err ==> c.dispatch(
            program,
            code,
            arg1,
            arg2,
        ).0.pc == c.pc,
{
    reveal(Cpu::dispatch);
    reveal(Cpu::write_call);
    reveal(Cpu::sys_write);
    reveal(Cpu::hint_len_call);
    reveal(Cpu::sha_compress);
    reveal(Cpu::sha_extend);
    reveal(Cpu::keccak_sponge);
    reveal(Cpu::binary_call);
    reveal(Cpu::unary_call);
    reveal(Cpu::decompress_call);
    reveal(Cpu::modular_call);
    reveal(Cpu::wide_call);
}

} // verus!
