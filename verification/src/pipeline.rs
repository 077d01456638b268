//! Drives a whole run: chunks of the live run, spliced into shards, traced into records.
use std::collections::VecDeque;
use std::sync::Arc;

use vstd::prelude::*;

use crate::chips::{self, Ledger};
use crate::cost::AirCosts;
use crate::course::{self, Course};
use crate::errors::ExecutionError;
use crate::events::{MemValue, MemoryInitializeFinalizeEvent, MemoryRecord};
use crate::globals;
use crate::hook::{self, HookRegistry};
use crate::machine::Cpu;
use crate::minimal::{self, copied_bytes, ExecutionReport, MinimalExecutor, Setup};
use crate::program::Program;
use crate::record::ExecutionRecord;
use crate::replay;
use crate::splicing::{self, Shape, SplicedMinimalTrace, SplicingStatus, SplicingVM, Walk};
use crate::syscalls::MAX_SYSCALL_CYCLES;
use crate::trace::{MinimalTrace, TraceChunk};
use crate::tracing::{self, TracingVM};

verus! {

/// What a run with the usual cost of system calls depends on besides the machine.
pub open spec fn fast_setup(program: Program, max_trace_size: u64, max_cycles: Option<u64>) -> Setup {
    Setup { program, max_syscall_cycles: MAX_SYSCALL_CYCLES, max_trace_size, max_cycles }
}

/// The hooks of a registry, if there is one.
pub open spec fn hooks_of(hook_registry: Option<HookRegistry>) -> Map<u32, hook::Hook> {
    match hook_registry {
        Some(registry) => registry.hooks(),
        None => Map::empty(),
    }
}

/// A run ends after `n` instructions: because the program ends, because the next instruction
/// fails, or because it has reached its limit.
pub open spec fn ends_fast(
    setup: Setup,
    start: Cpu,
    n: nat,
    r: Result<(Vec<u8>, ExecutionReport), ExecutionError>,
) -> bool {
    match (r, setup.after(start, n)) {
        (Ok((output, report)), Some(end)) => {
            &&& n >= 1
            &&& course::undisturbed(setup, start, (n - 1) as nat)
            &&& end.done(setup.program)
            &&& !minimal::over_limit(end, setup.max_cycles)
            &&& output@ == end.output
            &&& report.opcode_counts@ == end.opcodes
            &&& report.syscall_counts@ == end.syscalls
            &&& report.total == end.retired
        },
        (Err(e), Some(last)) => {
            ||| course::undisturbed(setup, start, n) && last.step(
                setup.program,
                setup.max_syscall_cycles,
            ).1 == Err::<(), ExecutionError>(e)
            ||| n >= 1 && course::undisturbed(setup, start, (n - 1) as nat) && minimal::over_limit(
                last,
                setup.max_cycles,
            ) && e == ExecutionError::ExceededCycleLimit(setup.max_cycles->Some_0)
        },
        _ => false,
    }
}

proof fn lemma_fails_fast(setup: Setup, start: Cpu, n: nat, m: nat, e: ExecutionError, end: Cpu)
    requires
        start.bus is Live,
        setup.after(start, n) is Some,
        course::undisturbed(setup, start, n),
        setup.fails(minimal::log_taken(setup.after(start, n)->Some_0), m, e, end),
    ensures
        ends_fast(
            setup,
            start,
            n + m,
            Err::<(Vec<u8>, ExecutionReport), ExecutionError>(e),
        ),
{
    let before = minimal::log_taken(setup.after(start, n)->Some_0);
    course::lemma_chunk(setup, start, n, m);
    let last = setup.after(before, m)->Some_0;
    if setup.goes_on(before, m) {
        course::lemma_goes_on(setup, before, m);
        course::lemma_undisturbed(setup, start, n, m);
    }
    if m >= 1 && setup.goes_on(before, (m - 1) as nat) {
        course::lemma_goes_on(setup, before, (m - 1) as nat);
        course::lemma_undisturbed(setup, start, n, (m - 1) as nat);
        assert((n + (m - 1) as nat) as nat == (n + m - 1) as nat);
    }
    replay::lemma_relogged_step(
        course::log_of(setup.after(start, n)->Some_0),
        last,
        setup.program,
        setup.max_syscall_cycles,
    );
}

/// Runs a program to its end without tracing it.
///
/// The public values and the counts are those of the run; how the log was cut does not matter.
#[verifier::loop_isolation(false)]
pub fn execute_fast(
    program: Arc<Program>,
    max_trace_size: u64,
    stdin: VecDeque<Vec<u8>>,
    hook_registry: Option<HookRegistry>,
    max_cycles: Option<u64>,
) -> (r: Result<(Vec<u8>, ExecutionReport), ExecutionError>)
    requires
        program.wf(),
        program.contains_pc(program.pc_start),
    ensures
        exists|start: Cpu, n: nat|
            minimal::starts_at(
                start,
                *program,
                hook::contents(stdin@),
                hooks_of(hook_registry),
            ) && #[trigger] ends_fast(
                fast_setup(*program, max_trace_size, max_cycles),
                start,
                n,
                r,
            ),
{
    let ghost input = hook::contents(stdin@);
    let ghost hooks = hooks_of(hook_registry);
    let registry: HookRegistry = match hook_registry {
        Some(registry) => registry,
        None => HookRegistry::empty(),
    };
    let mut minimal: MinimalExecutor = MinimalExecutor::new_with_context(
        program.clone(),
        max_trace_size,
        stdin,
        registry,
        max_cycles,
    );
    let ghost start = minimal.cpu();
    let ghost setup = minimal.setup();
    let ghost mut n: nat = 0;
    proof {
        assert(minimal::log_taken(start) == start) by {
            assert(course::log_of(start) =~= Seq::<MemValue>::empty());
        }
    }
    let mut ended: bool = false;
    while !ended
        invariant
            minimal.wf(),
            minimal.setup() == setup,
            setup == fast_setup(*program, max_trace_size, max_cycles),
            minimal::starts_at(start, *program, input, hooks),
            start.bus is Live,
            start.retired == 0,
            n == minimal.cpu().retired,
            course::stands_at(minimal.cpu(), setup, start, n),
            !ended ==> (minimal.is_finished() <==> n >= 1 && minimal.cpu().done(setup.program)),
            ended ==> minimal.is_finished() && n >= 1 && minimal.cpu().done(setup.program),
            minimal.is_finished() ==> n >= 1 && course::undisturbed(setup, start, (n - 1) as nat)
                && !minimal::over_limit(minimal.cpu(), setup.max_cycles),
            !minimal.is_finished() ==> course::undisturbed(setup, start, n),
        decreases u64::MAX - minimal.cpu().retired + (if ended { 0int } else { 1int }),
    {
        let ghost before = minimal.cpu();
        let ghost was_finished = minimal.is_finished();
        match minimal.try_execute_chunk() {
            Err(e) => {
                proof {
                    let m = (minimal.cpu().retired - before.retired) as nat;
                    lemma_fails_fast(setup, start, n, m, e, minimal.cpu());
                }
                return Err(e);
            },
            Ok(None) => {
                ended = true;
            },
            Ok(Some(_)) => {
                proof {
                    let m = (minimal.cpu().retired - before.retired) as nat;
                    minimal::lemma_run_retired(
                        before,
                        setup.program,
                        setup.max_syscall_cycles,
                        m,
                    );
                    course::lemma_goes_fast(setup, start, n, m);
                    n = n + m;
                }
            },
        }
    }
    let r: Result<(Vec<u8>, ExecutionReport), ExecutionError> = Ok(
        (copied_bytes(minimal.public_values_stream()), minimal.execution_report()),
    );
    proof {
        assert(ends_fast(setup, start, n, r));
    }
    r
}

/// Drives a run shard by shard. Keeps where the walk over the last chunk stands between shards, so
/// that a shard can start in the middle of a chunk and span more than one.
pub struct ShardDriver {
    minimal: MinimalExecutor,
    open: Option<(TraceChunk, SplicingVM)>,
    course: Ghost<Course>,
}

impl ShardDriver {
    /// The live run.
    pub closed spec fn executor(&self) -> MinimalExecutor {
        self.minimal
    }

    /// The course of the run so far.
    pub closed spec fn course(&self) -> Course {
        self.course@
    }

    /// Whether a walk over a chunk is open.
    pub closed spec fn walking(&self) -> bool {
        self.open is Some
    }

    /// The number of instructions that the open walk has retired.
    pub closed spec fn walked(&self) -> u64 {
        self.open->Some_0.1.cpu().retired
    }

    /// The costs and thresholds that the open shard is measured by.
    pub closed spec fn rules(&self) -> Walk {
        course::rules_of(&self.open->Some_0.1)
    }

    /// The size of a shard without instructions.
    pub closed spec fn empty_shape(&self) -> Shape {
        self.open->Some_0.1.checker().empty_shape()
    }

    /// The parts fit together.
    pub closed spec fn wf(&self) -> bool {
        let c = self.course@;
        &&& self.minimal.wf()
        &&& c.follows(&self.minimal)
        &&& c.shard <= c.total()
        &&& match self.open {
            None => {
                &&& c.cuts.len() == 1 ==> c.shard == 0
                &&& c.clean() ==> c.shard == c.total()
            },
            Some((chunk, vm)) => {
                &&& c.walked_by(&chunk, &vm)
                &&& c.clean() ==> c.shard == c.place(&vm)
            },
        }
    }

    /// The last shard was given out.
    pub open spec fn is_done(&self) -> bool {
        !self.walking() && self.course().cuts.len() > 1
    }

    /// The course is one of the live run.
    pub proof fn lemma_course(&self)
        requires
            self.wf(),
        ensures
            self.course().follows(&self.executor()),
            self.course().shard <= self.course().total(),
            self.walking() && self.course().clean() ==> self.course().in_line(self.course().shard),
            !self.walking() && self.course().clean() ==> self.course().shard
                == self.course().total(),
            self.executor().wf(),
    {
        if self.walking() && self.course().clean() {
            course::lemma_keeping_pace(
                self.course@,
                &self.open->Some_0.0,
                &self.open->Some_0.1,
            );
        }
    }

    /// Create a driver of a program without hints.
    pub fn new(program: Arc<Program>, max_trace_size: u64) -> (r: Self)
        requires
            program.wf(),
            program.contains_pc(program.pc_start),
        ensures
            r.wf(),
            r.begins(*program, max_trace_size, Seq::empty(), Map::empty()),
    {
        let r = Self::new_with_stdin(program, max_trace_size, VecDeque::new());
        proof {
            assert(hook::contents(Seq::<Vec<u8>>::empty()) =~= Seq::<Seq<u8>>::empty());
        }
        r
    }

    /// Create a driver of a program with hints.
    pub fn new_with_stdin(program: Arc<Program>, max_trace_size: u64, stdin: VecDeque<Vec<u8>>) -> (r:
        Self)
        requires
            program.wf(),
            program.contains_pc(program.pc_start),
        ensures
            r.wf(),
            r.begins(*program, max_trace_size, hook::contents(stdin@), Map::empty()),
    {
        Self::new_with_context(program, max_trace_size, stdin, None)
    }

    /// Create a driver of a program with hints and hooks.
    pub fn new_with_context(
        program: Arc<Program>,
        max_trace_size: u64,
        stdin: VecDeque<Vec<u8>>,
        hook_registry: Option<HookRegistry>,
    ) -> (r: Self)
        requires
            program.wf(),
            program.contains_pc(program.pc_start),
        ensures
            r.wf(),
            r.begins(
                *program,
                max_trace_size,
                hook::contents(stdin@),
                hooks_of(hook_registry),
            ),
    {
        let registry: HookRegistry = match hook_registry {
            Some(registry) => registry,
            None => HookRegistry::empty(),
        };
        let minimal: MinimalExecutor = MinimalExecutor::new_with_context(
            program,
            max_trace_size,
            stdin,
            registry,
            None,
        );
        let ghost course = Course {
            setup: minimal.setup(),
            start: minimal.cpu(),
            cuts: seq![0],
            shard: 0,
        };
        proof {
            assert(course::log_of(course.start) =~= Seq::<MemValue>::empty());
            assert(minimal::log_taken(course.start) == course.start);
        }
        ShardDriver { minimal, open: None, course: Ghost(course) }
    }

    /// The driver stands at the start of a program.
    pub open spec fn begins(
        &self,
        program: Program,
        max_trace_size: u64,
        input: Seq<Seq<u8>>,
        hooks: Map<u32, hook::Hook>,
    ) -> bool {
        &&& self.executor().starts(program, max_trace_size, None, input, hooks)
        &&& !self.executor().is_finished()
        &&& !self.walking()
        &&& self.course() == (Course {
            setup: self.executor().setup(),
            start: self.executor().cpu(),
            cuts: seq![0],
            shard: 0,
        })
    }

    /// The clock of the live run.
    pub fn clk(&self) -> (r: u64)
        ensures
            r == self.executor().cpu().clk,
    {
        self.minimal.clk()
    }

    /// The most cycles that any system call takes. A replay of this run needs the same value.
    pub fn max_syscall_cycles(&self) -> (r: u32)
        ensures
            r == self.executor().setup().max_syscall_cycles,
    {
        self.minimal.max_syscall_cycles()
    }

    /// The public values so far.
    pub fn public_values_stream(&self) -> (r: &Vec<u8>)
        ensures
            r@ == self.executor().cpu().output,
    {
        self.minimal.public_values_stream()
    }

    /// The events of the words that the run initializes and finalizes; meaningful once the run has
    /// ended. Nothing while the memory is forked.
    pub fn global_memory_events(&self) -> (r: Option<
        (Vec<MemoryInitializeFinalizeEvent>, Vec<MemoryInitializeFinalizeEvent>),
    >)
        requires
            self.wf(),
        ensures
            r is Some == self.executor().cpu().bus->Live_0.mem.saved is None,
            r matches Some(events) ==> are_globals(
                self.executor().cpu(),
                self.executor().setup().program,
                events.0@,
                events.1@,
            ),
    {
        self.minimal.global_memory_events()
    }

    /// How often each opcode retired and each system call was made so far.
    pub fn execution_report(&self) -> (r: ExecutionReport)
        ensures
            r.opcode_counts@ == self.executor().cpu().opcodes,
            r.syscall_counts@ == self.executor().cpu().syscalls,
            r.total == self.executor().cpu().retired,
    {
        self.minimal.execution_report()
    }

    /// Runs the next chunk of the live run.
    fn next_chunk(&mut self) -> (r: Result<TraceChunk, ExecutionError>)
        requires
            old(self).minimal.wf(),
            old(self).course@.follows(&old(self).minimal),
            !old(self).minimal.is_finished(),
        ensures
            final(self).open == old(self).open,
            match r {
                Ok(chunk) => {
                    let c = old(self).course@;
                    let d = final(self).course@;
                    let before = minimal::log_taken(c.whole(c.total()));
                    let n = (d.total() - c.total()) as nat;
                    &&& final(self).minimal.wf()
                    &&& d.follows(&final(self).minimal)
                    &&& d == (Course { cuts: c.cuts.push(c.total() + n), ..c })
                    &&& c.setup.stops(before, n)
                    &&& chunk.start_registers@ == before.regs
                    &&& chunk.pc_start == before.pc
                    &&& chunk.clk_start == before.clk
                    &&& chunk.clk_end == d.whole(d.total()).clk
                    &&& chunk.mem_reads@ == course::log_of(c.setup.after(before, n)->Some_0)
                    &&& final(self).minimal.is_finished() == d.whole(d.total()).done(
                        d.setup.program,
                    )
                },
                Err(e) => course::fails_after(old(self).course@, e),
            },
    {
        let ghost c = self.course@;
        let ghost before = self.minimal.cpu();
        match self.minimal.try_execute_chunk() {
            Err(e) => {
                proof {
                    let n = (self.minimal.cpu().retired - before.retired) as nat;
                    lemma_fails(c, n, e, self.minimal.cpu());
                }
                Err(e)
            },
            Ok(None) => {
                // A run that has not ended has another chunk.
                proof {
                    assert(false);
                }
                Err(ExecutionError::Unimplemented())
            },
            Ok(Some(chunk)) => {
                proof {
                    let n = (self.minimal.cpu().retired - before.retired) as nat;
                    minimal::lemma_run_retired(
                        before,
                        c.setup.program,
                        c.setup.max_syscall_cycles,
                        n,
                    );
                    let d = Course { cuts: c.cuts.push(c.total() + n), ..c };
                    course::lemma_next_chunk(c, d, n);
                    self.course@ = d;
                }
                Ok(chunk)
            },
        }
    }

    /// Goes to the start of a shard that is measured by the given costs and thresholds.
    #[verifier::spinoff_prover]
    #[verifier::rlimit(20)]
    fn begin(
        &mut self,
        program: Arc<Program>,
        costs: AirCosts,
        element_threshold: u64,
        height_threshold: u64,
    ) -> (r: Result<(), ExecutionError>)
        requires
            old(self).wf(),
            !old(self).is_done(),
            *program == old(self).executor().setup().program,
        ensures
            match r {
                Ok(()) => {
                    &&& final(self).wf()
                    &&& final(self).walking()
                    &&& final(self).course().start == old(self).course().start
                    &&& final(self).course().setup == old(self).course().setup
                    &&& final(self).course().shard == old(self).course().shard
                    &&& final(self).course().clean() ==> old(self).course().clean()
                    &&& old(self).course().total() <= final(self).course().total()
                    &&& final(self).executor().setup() == old(self).executor().setup()
                    &&& old(self).course().cuts.is_prefix_of(final(self).course().cuts)
                    &&& final(self).rules() == shard_rules(
                        old(self).course().setup,
                        costs,
                        element_threshold,
                        height_threshold,
                    )
                    &&& final(self).empty_shape() == start_shape(*program, costs)
                },
                Err(e) => course::fails_after(old(self).course(), e),
            },
    {
        let mut open: Option<(TraceChunk, SplicingVM)> = None;
        std::mem::swap(&mut open, &mut self.open);
        match open {
            Some((chunk, mut vm)) => {
                let ghost before = vm;
                vm.set_limits(costs, element_threshold, height_threshold);
                proof {
                    let c = self.course@;
                    assert(vm.walks(&chunk));
                    if c.clean() {
                        course::lemma_other_limits(c, &chunk, &before, &vm);
                    }
                }
                self.open = Some((chunk, vm));
                Ok(())
            },
            None => {
                let ghost c = self.course@;
                proof {
                    self.minimal.lemma_unfinished_is_ready();
                    self.minimal.lemma_program_is_valid();
                }
                let chunk: TraceChunk = match self.next_chunk() {
                    Ok(chunk) => chunk,
                    Err(e) => {
                        return Err(e);
                    },
                };
                let cycles: u32 = self.minimal.max_syscall_cycles();
                let vm: SplicingVM = SplicingVM::new(
                    &chunk,
                    program,
                    cycles,
                    costs,
                    element_threshold,
                    height_threshold,
                );
                proof {
                    let d = self.course@;
                    let n = (d.total() - c.total()) as nat;
                    course::lemma_next_chunk(c, d, n);
                    if d.clean() {
                        splicing::lemma_shape_after(
                            course::rules_of(&vm),
                            c.whole(0),
                            vm.checker().empty_shape(),
                            0,
                        );
                        assert(vm.shard().carried@ =~= c.log().subrange(
                            c.log().len() as int,
                            c.log().len() as int,
                        ));
                        course::lemma_resumed(
                            c,
                            d,
                            n,
                            course::rules_of(&vm),
                            vm.checker().empty_shape(),
                            &chunk,
                            &vm,
                        );
                    }
                }
                self.open = Some((chunk, vm));
                Ok(())
            },
        }
    }
}

/// What driving a run through a shard does.
pub open spec fn drives(
    c: Course,
    rules: Walk,
    empty: Shape,
    after: &ShardDriver,
    r: Result<(SplicedMinimalTrace, bool), ExecutionError>,
) -> bool {
    let d = after.course();
    match r {
        Ok((spliced, done)) => {
            &&& after.wf()
            &&& spliced.wf()
            &&& c.setup.program.contains_pc(spliced.pc_at_start())
            &&& d.setup == c.setup
            &&& d.start == c.start
            &&& d.chunked()
            &&& c.cuts.is_prefix_of(d.cuts)
            &&& done == after.is_done()
            &&& done ==> after.executor().is_finished()
            &&& d.clean() ==> {
                &&& c.clean()
                &&& d.is_shard(rules, empty, c.shard, d.shard, done)
                &&& d.is_part(&spliced, c.shard, d.shard)
            }
        },
        Err(e) => {
            ||| course::fails_after(c, e)
            ||| after.course().start == c.start && after.course().setup == c.setup
                && after.course().chunked() && c.shard <= after.course().total()
                && !after.course().clean()
        },
    }
}

/// The rules that a shard is measured by.
pub open spec fn shard_rules(
    setup: Setup,
    costs: AirCosts,
    element_threshold: u64,
    height_threshold: u64,
) -> Walk {
    Walk {
        program: setup.program,
        max_syscall_cycles: setup.max_syscall_cycles,
        costs,
        element_threshold,
        height_threshold,
        clk_end: 0,
    }
}

/// The size of a shard without instructions.
pub open spec fn start_shape(program: Program, costs: AirCosts) -> Shape {
    Shape {
        area: splicing::baseline_area(costs, program.instructions@.len() as u64),
        heights: Map::empty(),
    }
}

proof fn lemma_fails(c: Course, n: nat, e: ExecutionError, end: Cpu)
    requires
        c.starts_well(),
        c.chunked(),
        c.setup.max_cycles is None,
        course::undisturbed(c.setup, c.start, c.total()),
        c.setup.fails(minimal::log_taken(c.whole(c.total())), n, e, end),
    ensures
        course::fails_after(c, e),
{
    lemma_fails_fast(c.setup, c.start, c.total(), n, e, end);
    assert(course::undisturbed(c.setup, c.start, c.total() + n));
}

/// The events of the words that a run initializes and finalizes.
pub open spec fn are_globals(
    c: Cpu,
    program: Program,
    initialize: Seq<MemoryInitializeFinalizeEvent>,
    finalize: Seq<MemoryInitializeFinalizeEvent>,
) -> bool {
    exists|items: Seq<(u32, MemoryRecord)>| #[trigger]
        globals::lists_records(items, c.bus->Live_0.mem.seen) && initialize == globals::initialized(
            items,
            c.bus->Live_0.seeds,
            program.image@,
            items.len(),
        ) && finalize == globals::finalized(items, items.len())
}

/// A longer course that stays clean was clean before.
proof fn lemma_longer(c: Course, d: Course, e: Course, n: nat)
    requires
        c.cuts.is_prefix_of(d.cuts),
        e.cuts == d.cuts.push(n),
    ensures
        c.cuts.is_prefix_of(e.cuts),
{
    assert(e.cuts.subrange(0, c.cuts.len() as int) =~= d.cuts.subrange(0, c.cuts.len() as int));
}

impl ShardDriver {
    /// Goes on with the next chunk.
    fn cross_boundary(&mut self, program: &Arc<Program>, chunk: TraceChunk, vm: SplicingVM) -> (r:
        Result<(TraceChunk, SplicingVM), ExecutionError>)
        requires
            old(self).minimal.wf(),
            old(self).course@.follows(&old(self).minimal),
            old(self).course@.cuts.len() >= 2,
            **program == old(self).minimal.setup().program,
            vm.wf(),
            vm.walks(&chunk),
            old(self).course@.clean() ==> old(self).course@.used_up_by(&chunk, &vm),
            old(self).course@.clean() ==> !old(self).course@.whole(
                old(self).course@.total(),
            ).done(old(self).course@.setup.program),
            vm.walk().program == old(self).minimal.setup().program,
            vm.walk().max_syscall_cycles == old(self).minimal.setup().max_syscall_cycles,
            vm.walk().program.contains_pc(vm.shard().pc),
        ensures
            final(self).open == old(self).open,
            match r {
                Ok((next, walk)) => {
                    let c = old(self).course@;
                    let d = final(self).course@;
                    &&& final(self).minimal.wf()
                    &&& d.follows(&final(self).minimal)
                    &&& d.total() > c.total()
                    &&& d == (Course { cuts: c.cuts.push(d.total()), ..c })
                    &&& d.clean() ==> c.clean()
                    &&& d.walked_by(&next, &walk)
                    &&& course::rules_of(&walk) == course::rules_of(&vm)
                    &&& walk.checker() == vm.checker()
                    &&& final(self).minimal.setup() == old(self).minimal.setup()
                },
                Err(e) => {
                    ||| course::fails_after(old(self).course@, e)
                    ||| !old(self).course@.clean() && final(self).course == old(self).course
                },
            },
    {
        let ghost c = self.course@;
        let ghost before = vm;
        proof {
            self.minimal.lemma_program_is_valid();
            vm.lemma_walk_uses_the_checker();
        }
        if self.minimal.finished() {
            return Err(ExecutionError::EndInUnconstrained());
        }
        proof {
            self.minimal.lemma_unfinished_is_ready();
            assert(c.setup.after(c.start, c.total()) is Some);
            course::lemma_unfinished(c);
            course::lemma_between_chunks(c);
        }
        let carry = vm.into_carry(&chunk);
        let next: TraceChunk = match self.next_chunk() {
            Ok(chunk) => chunk,
            Err(e) => {
                return Err(e);
            },
        };
        let cycles: u32 = self.minimal.max_syscall_cycles();
        let walk: SplicingVM = SplicingVM::resume(carry, &next, program.clone(), cycles);
        proof {
            walk.lemma_walk_uses_the_checker();
            let d = self.course@;
            let k = (d.total() - c.total()) as nat;
            course::lemma_next_chunk(c, d, k);
            if d.clean() {
                course::lemma_crossed(c, d, k, &chunk, &before, &next, &walk);
            }
        }
        Ok((next, walk))
    }

    /// Walks to the end of the open shard and slices it out.
    #[verifier::spinoff_prover]
    #[verifier::rlimit(20)]
    fn finish_shard(&mut self, program: &Arc<Program>) -> (r: Result<
        (SplicedMinimalTrace, bool),
        ExecutionError,
    >)
        requires
            old(self).wf(),
            old(self).walking(),
            **program == old(self).executor().setup().program,
        ensures
            drives(
                old(self).course(),
                old(self).rules(),
                old(self).empty_shape(),
                final(self),
                r,
            ),
            r matches Ok((_, done)) ==> !done ==> final(self).walking() && final(self).rules()
                == old(self).rules() && final(self).empty_shape() == old(self).empty_shape(),
            r is Ok ==> final(self).executor().setup() == old(self).executor().setup(),
            r matches Ok((_, done)) ==> !done ==> final(self).executor().cpu().retired > old(
                self,
            ).executor().cpu().retired || final(self).executor().cpu().retired == old(
                self,
            ).executor().cpu().retired && final(self).walked() > old(self).walked(),
    {
        proof {
            self.minimal.lemma_program_is_valid();
        }
        let ghost rules = self.rules();
        let ghost empty = self.empty_shape();
        let ghost c0 = self.course@;
        let mut open: Option<(TraceChunk, SplicingVM)> = None;
        std::mem::swap(&mut open, &mut self.open);
        let (mut chunk, mut vm) = match open {
            Some(pair) => pair,
            None => {
                return Err(ExecutionError::Unimplemented());
            },
        };
        loop
            invariant
                self.minimal.wf(),
                self.course@.follows(&self.minimal),
                self.open is None,
                self.course@.start == c0.start,
                self.course@.setup == c0.setup,
                self.course@.shard == c0.shard,
                c0.shard <= c0.total(),
                c0.cuts.is_prefix_of(self.course@.cuts),
                c0.total() <= self.course@.total(),
                self.course@.clean() ==> c0.clean(),
                self.course@.walked_by(&chunk, &vm),
                c0 == old(self).course@,
                rules == old(self).rules(),
                empty == old(self).empty_shape(),
                course::rules_of(&vm) == rules,
                vm.checker().empty_shape() == empty,
                **program == c0.setup.program,
                program.wf(),
                self.minimal.setup() == old(self).minimal.setup(),
                self.minimal.cpu().retired > old(self).minimal.cpu().retired
                    || self.minimal.cpu().retired == old(self).minimal.cpu().retired
                    && vm.cpu().retired >= old(self).walked(),
            decreases u64::MAX - self.minimal.cpu().retired,
        {
            let ghost c = self.course@;
            let ghost before = vm;
            let walked: Result<SplicingStatus, ExecutionError> = vm.execute();
            proof {
                splicing::walking_stays_on_the_trace(&before, &vm, &chunk);
            }
            let status: SplicingStatus = match walked {
                Ok(status) => status,
                Err(e) => {
                    proof {
                        if c.clean() {
                            let n = (vm.cpu().retired - before.cpu().retired) as nat;
                            course::lemma_keeping_pace(c, &chunk, &before);
                            course::lemma_walk_succeeds(
                                c,
                                before.walk(),
                                before.cpu(),
                                c.place(&before),
                                before.checker().shape(),
                                n,
                                e,
                                vm.cpu(),
                            );
                        }
                    }
                    return Err(e);
                },
            };
            let ghost n = (vm.cpu().retired - before.cpu().retired) as nat;
            let ghost ended = vm;
            proof {
                minimal::lemma_run_retired(
                    before.cpu(),
                    before.walk().program,
                    before.walk().max_syscall_cycles,
                    n,
                );
            }
            proof {
                if c.clean() {
                    course::lemma_keeping_pace(c, &chunk, &before);
                    course::lemma_walked(c, &chunk, &before, &vm, n, status);
                }
            }
            match status {
                SplicingStatus::ShardBoundary => {
                    let spliced: SplicedMinimalTrace = vm.splice(&chunk);
                    proof {
                        let d = Course {
                            shard: if c.clean() {
                                c.place(&ended)
                            } else {
                                c.shard
                            },
                            ..c
                        };
                        course::lemma_same_parts(c, d, rules, empty, c.shard, d.shard);
                        if c.clean() {
                            course::lemma_spliced(c, &chunk, &ended, &spliced);
                            course::lemma_same_part(c, d, &spliced, c.shard, d.shard);
                            course::lemma_new_shard(c, d, &chunk, &ended, &vm);
                        }
                        self.course@ = d;
                    }
                    self.open = Some((chunk, vm));
                    return Ok((spliced, false));
                },
                SplicingStatus::Done => {
                    proof {
                        if c.clean() {
                            course::lemma_shard_bounds(
                                c,
                                rules,
                                empty,
                                c.shard,
                                c.place(&ended),
                                true,
                            );
                            assert(c.setup.after(c.start, c.total()) is Some);
                        }
                    }
                    if !self.minimal.finished() {
                        return Err(ExecutionError::EndInUnconstrained());
                    }
                    let spliced: SplicedMinimalTrace = vm.splice(&chunk);
                    proof {
                        let d = Course {
                            shard: if c.clean() {
                                c.place(&ended)
                            } else {
                                c.shard
                            },
                            ..c
                        };
                        course::lemma_same_parts(c, d, rules, empty, c.shard, d.shard);
                        if c.clean() {
                            course::lemma_spliced(c, &chunk, &ended, &spliced);
                            course::lemma_same_part(c, d, &spliced, c.shard, d.shard);
                        }
                        self.course@ = d;
                    }
                    return Ok((spliced, true));
                },
                SplicingStatus::TraceEnd => {
                    let (next, walk) = match self.cross_boundary(program, chunk, vm) {
                        Ok(pair) => pair,
                        Err(e) => {
                            proof {
                                if course::fails_after(c, e) {
                                    course::lemma_later_failure(c0, c, e);
                                }
                            }
                            return Err(e);
                        },
                    };
                    proof {
                        lemma_longer(c0, c, self.course@, self.course@.total());
                    }
                    chunk = next;
                    vm = walk;
                },
            }
        }
    }
}

proof fn lemma_drives_on(
    c: Course,
    d: Course,
    rules: Walk,
    empty: Shape,
    after: &ShardDriver,
    r: Result<(SplicedMinimalTrace, bool), ExecutionError>,
)
    requires
        c.start == d.start,
        c.setup == d.setup,
        c.shard == d.shard,
        c.total() <= d.total(),
        c.cuts.is_prefix_of(d.cuts),
        d.clean() ==> c.clean(),
        drives(d, rules, empty, after, r),
    ensures
        drives(c, rules, empty, after, r),
{
    match r {
        Err(e) => {
            if course::fails_after(d, e) {
                course::lemma_later_failure(c, d, e);
            }
        },
        Ok(_) => {
            assert(after.course().cuts.subrange(0, c.cuts.len() as int) =~= d.cuts.subrange(
                0,
                c.cuts.len() as int,
            ));
        },
    }
}

/// Drives a run through exactly one shard, over as many chunks as that takes. Gives the shard and
/// whether the run has ended. To be called until it has.
pub fn next_shard(
    driver: &mut ShardDriver,
    program: Arc<Program>,
    costs: AirCosts,
    element_threshold: u64,
    height_threshold: u64,
) -> (r: Result<(SplicedMinimalTrace, bool), ExecutionError>)
    requires
        old(driver).wf(),
        !old(driver).is_done(),
        *program == old(driver).executor().setup().program,
    ensures
        drives(
            old(driver).course(),
            shard_rules(
                old(driver).course().setup,
                costs,
                element_threshold,
                height_threshold,
            ),
            start_shape(*program, costs),
            final(driver),
            r,
        ),
{
    let ghost c = driver.course();
    let ghost rules = shard_rules(c.setup, costs, element_threshold, height_threshold);
    let ghost empty = start_shape(driver.executor().setup().program, costs);
    if let Err(e) = driver.begin(program.clone(), costs, element_threshold, height_threshold) {
        return Err(e);
    }
    let ghost d = driver.course();
    let r = driver.finish_shard(&program);
    proof {
        lemma_drives_on(c, d, rules, empty, driver, r);
    }
    r
}

/// Traces a shard.
pub fn trace_shard(program: Arc<Program>, spliced: &SplicedMinimalTrace, max_syscall_cycles: u32) -> (r:
    Result<ExecutionRecord, ExecutionError>)
    requires
        program.wf(),
        spliced.wf(),
        program.contains_pc(spliced.pc_at_start()),
    ensures
        exists|start: Cpu, n: nat|
            splicing::starts_with(start, spliced) && #[trigger] tracing::traces(
                start,
                *program,
                max_syscall_cycles,
                spliced.clk_at_end(),
                n,
                r,
            ),
{
    let mut tracing: TracingVM = TracingVM::new(spliced, program.clone(), max_syscall_cycles);
    let ghost start = tracing.cpu();
    let ghost blank = tracing.recorded();
    let executed: Result<(), ExecutionError> = tracing.execute();
    let ghost n = (tracing.cpu().retired - start.retired) as nat;
    if let Err(e) = executed {
        proof {
            assert(tracing::traces(
                start,
                *program,
                max_syscall_cycles,
                spliced.clk_at_end(),
                n,
                Err::<ExecutionRecord, ExecutionError>(e),
            ));
        }
        return Err(e);
    }
    let record: ExecutionRecord = tracing.into_record();
    let r: Result<ExecutionRecord, ExecutionError> = Ok(record);
    proof {
        chips::a_blank_record_has_an_empty_ledger(blank);
        assert(record.only_ledger());
        assert(tracing::traces(
            start,
            *program,
            max_syscall_cycles,
            spliced.clk_at_end(),
            n,
            r,
        ));
    }
    r
}

/// The events of each record, by chip.
pub open spec fn events_of(records: Seq<ExecutionRecord>) -> Seq<Ledger> {
    records.map_values(|record: ExecutionRecord| record.ledger())
}

/// What a whole run through the pipeline gives.
///
/// The points at which the run is cut into shards lie inside the run and are in order. A run that
/// gives records has ended. The points and the records are told apart only where every chunk can
/// be replayed; where one cannot, the only point is the start. Every record is one of the program
/// and holds its ledger and nothing else; the last one also holds the words that the run
/// initializes and finalizes, unless the run ends with its memory forked.
pub open spec fn ran(
    c: Course,
    rules: Walk,
    empty: Shape,
    points: Seq<nat>,
    r: Result<Vec<ExecutionRecord>, ExecutionError>,
) -> bool {
    &&& c.chunked()
    &&& points.len() >= 1
    &&& points[0] == 0
    &&& forall|i: int| 0 <= i < points.len() ==> #[trigger] points[i] <= c.total()
    &&& forall|i: int, j: int|
        0 <= i < j < points.len() ==> #[trigger] points[i] < #[trigger] points[j]
    &&& c.clean() ==> course::cut_at(
        c,
        rules,
        empty,
        points,
        c.whole(points.last()).done(c.setup.program),
    )
    &&& match r {
        Ok(records) => {
            &&& records@.len() >= 1
            &&& c.whole(c.total()).done(c.setup.program)
            &&& c.clean() ==> points.len() == records@.len() + 1 && points.last() == c.total()
                && course::recorded(c, points, events_of(records@))
            &&& forall|i: int|
                0 <= i < records@.len() ==> *(#[trigger] records@[i]).program == c.setup.program
            &&& forall|i: int|
                0 <= i < records@.len() - 1 ==> (#[trigger] records@[i]).only_ledger()
            &&& records@.last().only_ledger_and_globals()
            &&& if c.whole(c.total()).bus->Live_0.mem.saved is None {
                are_globals(
                    c.whole(c.total()),
                    c.setup.program,
                    records@.last().global_memory_initialize_events@,
                    records@.last().global_memory_finalize_events@,
                )
            } else {
                records@.last().only_ledger()
            }
        },
        Err(e) => c.clean() && course::sound(c, points) ==> course::fails(c, e),
    }
}

/// Drives a run through one more shard and traces it.
#[verifier::spinoff_prover]
#[verifier::rlimit(40)]
fn record_shard(driver: &mut ShardDriver, program: &Arc<Program>) -> (r: Result<
    (ExecutionRecord, bool),
    ExecutionError,
>)
    requires
        old(driver).wf(),
        old(driver).walking(),
        **program == old(driver).executor().setup().program,
    ensures
        ({
            let c = old(driver).course();
            let d = final(driver).course();
            match r {
                Ok((record, done)) => {
                    &&& final(driver).wf()
                    &&& d.setup == c.setup
                    &&& d.start == c.start
                    &&& d.chunked()
                    &&& c.cuts.is_prefix_of(d.cuts)
                    &&& done == final(driver).is_done()
                    &&& done ==> final(driver).executor().is_finished()
                    &&& !done ==> final(driver).walking() && final(driver).rules() == old(
                        driver,
                    ).rules() && final(driver).empty_shape() == old(driver).empty_shape()
                    &&& final(driver).executor().setup() == old(driver).executor().setup()
                    &&& !done ==> final(driver).executor().cpu().retired > old(
                        driver,
                    ).executor().cpu().retired || final(driver).executor().cpu().retired == old(
                        driver,
                    ).executor().cpu().retired && final(driver).walked() > old(driver).walked()
                    &&& d.clean() ==> c.clean() && d.is_shard(
                        old(driver).rules(),
                        old(driver).empty_shape(),
                        c.shard,
                        d.shard,
                        done,
                    )
                    &&& d.clean() && d.whole(c.shard).fork is None && d.steady(c.shard, d.shard)
                        ==> record.ledger() == course::part_events(d, c.shard, d.shard)
                    &&& record.only_ledger()
                    &&& *record.program == c.setup.program
                },
                Err(e) => exists|b: Course, points: Seq<nat>| #[trigger]
                    blames(c, old(driver).rules(), old(driver).empty_shape(), b, points, e),
            }
        }),
{
    let ghost c = driver.course();
    let ghost rules = driver.rules();
    let ghost empty = driver.empty_shape();
    proof {
        driver.lemma_course();
        driver.executor().lemma_program_is_valid();
    }
    let (spliced, done) = match driver.finish_shard(program) {
        Ok(pair) => pair,
        Err(e) => {
            proof {
                lemma_blame_early(c, driver.course(), rules, empty, e);
            }
            return Err(e);
        },
    };
    proof {
        driver.lemma_course();
    }
    let ghost d = driver.course();
    let cycles: u32 = driver.max_syscall_cycles();
    let traced: Result<ExecutionRecord, ExecutionError> = trace_shard(
        program.clone(),
        &spliced,
        cycles,
    );
    proof {
        if d.clean() && d.whole(c.shard).fork is None && d.steady(c.shard, d.shard) {
            course::lemma_shard_bounds(d, rules, empty, c.shard, d.shard, done);
            lemma_shard_traced(d, c.shard, d.shard, &spliced, traced);
        }
    }
    match traced {
        Ok(record) => Ok((record, done)),
        Err(e) => {
            proof {
                lemma_blame(c, d, rules, empty, d.shard, done, e);
            }
            Err(e)
        },
    }
}

proof fn lemma_shard_traced(
    c: Course,
    from: nat,
    to: nat,
    spliced: &SplicedMinimalTrace,
    traced: Result<ExecutionRecord, ExecutionError>,
)
    requires
        c.starts_well(),
        c.chunked(),
        from < to <= c.total(),
        course::undisturbed(c.setup, c.start, c.total()) || course::undisturbed(
            c.setup,
            c.start,
            (c.total() - 1) as nat,
        ),
        c.is_part(spliced, from, to),
        c.in_line(from),
        c.whole(from).fork is None,
        c.steady(from, to),
        exists|start: Cpu, n: nat|
            splicing::starts_with(start, spliced) && #[trigger] tracing::traces(
                start,
                c.setup.program,
                c.setup.max_syscall_cycles,
                spliced.clk_at_end(),
                n,
                traced,
            ),
    ensures
        traced matches Ok(record) && record.ledger() == course::part_events(c, from, to),
{
    let (start, n) = choose|start: Cpu, n: nat|
        splicing::starts_with(start, spliced) && #[trigger] tracing::traces(
            start,
            c.setup.program,
            c.setup.max_syscall_cycles,
            spliced.clk_at_end(),
            n,
            traced,
        );
    lemma_undisturbed_before(c, to);
    course::a_shard_is_traced_exactly(c, spliced, start, n, from, to, traced);
}

proof fn lemma_blame_early(c: Course, d: Course, rules: Walk, empty: Shape, e: ExecutionError)
    requires
        c.chunked(),
        c.shard <= c.total(),
        course::fails_after(c, e) || c.start == d.start && c.setup == d.setup && d.chunked()
            && c.shard <= d.total() && !d.clean(),
    ensures
        exists|b: Course, points: Seq<nat>| #[trigger] blames(c, rules, empty, b, points, e),
{
    if course::fails_after(c, e) {
        assert(blames(c, rules, empty, c, seq![c.shard], e));
    } else {
        assert(blames(c, rules, empty, d, seq![c.shard], e));
    }
}

proof fn lemma_blame(
    c: Course,
    d: Course,
    rules: Walk,
    empty: Shape,
    to: nat,
    done: bool,
    e: ExecutionError,
)
    requires
        c.start == d.start,
        c.setup == d.setup,
        c.cuts.len() >= 1,
        c.shard <= c.total(),
        c.cuts.is_prefix_of(d.cuts),
        d.chunked(),
        d.clean() ==> c.clean() && d.is_shard(rules, empty, c.shard, to, done),
        !(d.clean() && d.whole(c.shard).fork is None && d.steady(c.shard, to)),
    ensures
        exists|points: Seq<nat>| #[trigger] blames(c, rules, empty, d, points, e),
{
    course::lemma_longer_course(c, d);
    if d.clean() {
        let points = seq![c.shard, to];
        course::lemma_shard_bounds(d, rules, empty, c.shard, to, done);
        assert(course::cut_at(d, rules, empty, points, done));
        if course::sound(d, points) {
            assert(course::sound_at(d, points, 0));
            assert(points[0int + 1] == to);
        }
        assert(blames(c, rules, empty, d, points, e));
    } else {
        assert(blames(c, rules, empty, d, seq![c.shard], e));
    }
}

proof fn lemma_undisturbed_before(c: Course, n: nat)
    requires
        1 <= n <= c.total(),
        course::undisturbed(c.setup, c.start, c.total()) || course::undisturbed(
            c.setup,
            c.start,
            (c.total() - 1) as nat,
        ),
    ensures
        course::undisturbed(c.setup, c.start, (n - 1) as nat),
{
}

/// Why a shard could not be recorded: the live run fails, or the course of the run is not one that
/// a replay can follow.
pub open spec fn blames(
    c: Course,
    rules: Walk,
    empty: Shape,
    b: Course,
    points: Seq<nat>,
    e: ExecutionError,
) -> bool {
    &&& b.start == c.start
    &&& b.setup == c.setup
    &&& b.chunked()
    &&& points.len() >= 1
    &&& points[0] == c.shard
    &&& course::in_order(b, points)
    &&& b.clean() ==> {
        &&& c.clean()
        &&& c.cuts.is_prefix_of(b.cuts)
        &&& course::cut_at(
            b,
            rules,
            empty,
            points,
            b.whole(points.last()).done(b.setup.program),
        )
    }
    &&& b.clean() && course::sound(b, points) ==> course::fails_after(c, e)
}

/// The records so far.
#[verifier::opaque]
spec fn runs(
    c: Course,
    rules: Walk,
    empty: Shape,
    points: Seq<nat>,
    records: Seq<ExecutionRecord>,
    done: bool,
) -> bool {
    &&& points.len() == records.len() + 1
    &&& points[0] == 0
    &&& forall|i: int|
        0 <= i < records.len() ==> (#[trigger] records[i]).only_ledger() && *records[i].program
            == c.setup.program
    &&& c.clean() ==> {
        &&& points.last() == c.shard
        &&& course::cut_at(c, rules, empty, points, done)
        &&& course::recorded(c, points, events_of(records))
    }
}

proof fn lemma_runs_on(
    c: Course,
    d: Course,
    rules: Walk,
    empty: Shape,
    points: Seq<nat>,
    records: Seq<ExecutionRecord>,
    record: ExecutionRecord,
    done: bool,
)
    requires
        c.start == d.start,
        c.setup == d.setup,
        c.cuts.len() >= 1,
        d.chunked(),
        c.cuts.is_prefix_of(d.cuts),
        runs(c, rules, empty, points, records, false),
        d.clean() ==> c.clean() && d.is_shard(rules, empty, c.shard, d.shard, done),
        d.clean() && d.whole(c.shard).fork is None && d.steady(c.shard, d.shard)
            ==> record.ledger() == course::part_events(d, c.shard, d.shard),
        record.only_ledger(),
        *record.program == c.setup.program,
    ensures
        runs(d, rules, empty, points.push(d.shard), records.push(record), done),
{
    reveal(runs);
    course::lemma_longer_course(c, d);
    if d.clean() {
        let more = seq![c.shard, d.shard];
        assert(course::cut_at(d, rules, empty, more, done));
        course::lemma_cut_further(c, d, rules, empty, points, more, done);
        assert(points + more.skip(1) =~= points.push(d.shard));
        course::lemma_one_more_record(
            c,
            d,
            points,
            events_of(records),
            d.shard,
            record.ledger(),
        );
        assert(events_of(records.push(record)) =~= events_of(records).push(record.ledger()));
    }
}

proof fn lemma_run_fails(
    c0: Course,
    c: Course,
    rules: Walk,
    empty: Shape,
    points: Seq<nat>,
    records: Seq<ExecutionRecord>,
    e: ExecutionError,
)
    requires
        c.start == c0.start,
        c.setup == c0.setup,
        c.cuts.len() >= 1,
        runs(c, rules, empty, points, records, false),
        exists|b: Course, more: Seq<nat>| #[trigger] blames(c, rules, empty, b, more, e),
    ensures
        exists|b: Course, all: Seq<nat>|
            b.start == c0.start && b.setup == c0.setup && #[trigger] ran(
                b,
                rules,
                empty,
                all,
                Err::<Vec<ExecutionRecord>, ExecutionError>(e),
            ),
{
    reveal(runs);
    let (b, more) = choose|b: Course, more: Seq<nat>| #[trigger]
        blames(c, rules, empty, b, more, e);
    if b.clean() {
        let all = points + more.skip(1);
        let done = b.whole(more.last()).done(b.setup.program);
        course::lemma_longer_course(c, b);
        course::lemma_cut_further(c, b, rules, empty, points, more, done);
        assert(all.last() == more.last());
        assert(all[0] == 0);
        course::lemma_cuts_are_in_order(b, rules, empty, all, done && more.len() >= 2);
        if all.len() >= 2 {
            let k = all.len() - 2;
            assert(b.is_shard(rules, empty, all[k], all[k + 1], done && more.len() >= 2));
            course::lemma_shard_bounds(
                b,
                rules,
                empty,
                all[k],
                all[k + 1],
                done && more.len() >= 2,
            );
        }
        if course::sound(b, all) {
            course::lemma_sound_tail(b, points, more);
            lemma_fails_somewhere(c, b, e);
        }
        assert(ran(b, rules, empty, all, Err::<Vec<ExecutionRecord>, ExecutionError>(e)));
    } else {
        assert(ran(b, rules, empty, seq![0], Err::<Vec<ExecutionRecord>, ExecutionError>(e)));
    }
}

proof fn lemma_run_fails_at_once(c: Course, rules: Walk, empty: Shape, e: ExecutionError)
    requires
        c.chunked(),
        course::fails_after(c, e),
    ensures
        ran(c, rules, empty, seq![0], Err::<Vec<ExecutionRecord>, ExecutionError>(e)),
{
    lemma_fails_somewhere(c, c, e);
}

proof fn lemma_run_ends(
    c: Course,
    rules: Walk,
    empty: Shape,
    points: Seq<nat>,
    so_far: Seq<ExecutionRecord>,
    records: Vec<ExecutionRecord>,
)
    requires
        c.chunked(),
        c.whole(c.total()).done(c.setup.program),
        records@.len() >= 1,
        c.clean() ==> c.shard == c.total(),
        runs(c, rules, empty, points, so_far, true),
        so_far.len() == records@.len(),
        so_far.drop_last() == records@.drop_last(),
        records@.last().ledger() == so_far.last().ledger(),
        records@.last() == (ExecutionRecord {
            global_memory_initialize_events: records@.last().global_memory_initialize_events,
            global_memory_finalize_events: records@.last().global_memory_finalize_events,
            ..so_far.last()
        }),
        if c.whole(c.total()).bus->Live_0.mem.saved is None {
            are_globals(
                c.whole(c.total()),
                c.setup.program,
                records@.last().global_memory_initialize_events@,
                records@.last().global_memory_finalize_events@,
            )
        } else {
            records@.last() == so_far.last()
        },
    ensures
        exists|all: Seq<nat>| #[trigger]
            ran(c, rules, empty, all, Ok::<Vec<ExecutionRecord>, ExecutionError>(records)),
{
    reveal(runs);
    let r = Ok::<Vec<ExecutionRecord>, ExecutionError>(records);
    let k = so_far.len() - 1;
    assert forall|i: int| 0 <= i < k implies #[trigger] records@[i] == so_far[i] by {
        assert(records@.drop_last()[i] == records@[i]);
        assert(so_far.drop_last()[i] == so_far[i]);
    }
    assert(so_far[k].only_ledger());
    assert(events_of(so_far) =~= events_of(records@));
    if c.clean() {
        course::lemma_cuts_are_in_order(c, rules, empty, points, true);
        assert(ran(c, rules, empty, points, r));
    } else {
        assert(ran(c, rules, empty, seq![0], r));
    }
}

proof fn lemma_fails_somewhere(c: Course, b: Course, e: ExecutionError)
    requires
        c.start == b.start,
        c.setup == b.setup,
        course::fails_after(c, e),
    ensures
        course::fails(b, e),
{
    let n = choose|n: nat|
        n >= c.total() && #[trigger] course::undisturbed(c.setup, c.start, n) && (c.setup.after(
            c.start,
            n,
        ) matches Some(last) && last.step(c.setup.program, c.setup.max_syscall_cycles).1 == Err::<
            (),
            ExecutionError,
        >(e));
    assert(course::undisturbed(b.setup, b.start, n));
}

/// A record with the words that a run initializes and finalizes.
fn with_globals(
    record: ExecutionRecord,
    initialize: Vec<MemoryInitializeFinalizeEvent>,
    finalize: Vec<MemoryInitializeFinalizeEvent>,
) -> (r: ExecutionRecord)
    ensures
        r.ledger() == record.ledger(),
        r == (ExecutionRecord {
            global_memory_initialize_events: initialize,
            global_memory_finalize_events: finalize,
            ..record
        }),
{
    let ghost before = record;
    let mut record: ExecutionRecord = record;
    record.global_memory_initialize_events = initialize;
    record.global_memory_finalize_events = finalize;
    proof {
        let a = before.ledger();
        let b = record.ledger();
        assert(a.alu =~= b.alu);
        assert(a.comp =~= b.comp);
        assert(a.memory =~= b.memory);
        assert(a.jump =~= b.jump);
        assert(a.misc =~= b.misc);
        assert(a.calls =~= b.calls);
        assert(a =~= b);
    }
    record
}

proof fn lemma_no_records(c: Course, rules: Walk, empty: Shape)
    requires
        c.shard == 0,
    ensures
        runs(c, rules, empty, seq![0], Seq::empty(), false),
{
    reveal(runs);
}

/// Drives a run through all its shards and traces them.
#[verifier::spinoff_prover]
fn record_shards(driver: &mut ShardDriver, program: &Arc<Program>) -> (r: Result<
    (Vec<ExecutionRecord>, Ghost<Seq<nat>>),
    ExecutionError,
>)
    requires
        old(driver).wf(),
        old(driver).walking(),
        **program == old(driver).executor().setup().program,
        runs(
            old(driver).course(),
            old(driver).rules(),
            old(driver).empty_shape(),
            seq![0],
            Seq::empty(),
            false,
        ),
    ensures
        ({
            let c = old(driver).course();
            let d = final(driver).course();
            let rules = old(driver).rules();
            let empty = old(driver).empty_shape();
            match r {
                Ok((records, points)) => {
                    &&& final(driver).wf()
                    &&& d.start == c.start
                    &&& d.setup == c.setup
                    &&& final(driver).is_done()
                    &&& final(driver).executor().is_finished()
                    &&& records@.len() >= 1
                    &&& runs(d, rules, empty, points@, records@, true)
                },
                Err(e) => exists|b: Course, all: Seq<nat>|
                    b.start == c.start && b.setup == c.setup && #[trigger] ran(
                        b,
                        rules,
                        empty,
                        all,
                        Err::<Vec<ExecutionRecord>, ExecutionError>(e),
                    ),
            }
        }),
{
    let ghost c0 = driver.course();
    let ghost rules = driver.rules();
    let ghost empty = driver.empty_shape();
    let ghost mut points: Seq<nat> = seq![0];
    let mut records: Vec<ExecutionRecord> = Vec::new();
    let mut done: bool = false;
    proof {
        assert(records@ =~= Seq::empty());
    }
    while !done
        invariant
            driver.wf(),
            driver.course().start == c0.start,
            driver.course().setup == c0.setup,
            !done ==> driver.walking() && driver.rules() == rules && driver.empty_shape() == empty,
            **program == driver.executor().setup().program,
            done ==> driver.is_done(),
            done ==> driver.executor().is_finished(),
            runs(driver.course(), rules, empty, points, records@, done),
            done ==> records@.len() >= 1,
            c0 == old(driver).course(),
            rules == old(driver).rules(),
            empty == old(driver).empty_shape(),
        decreases
                if done {
                    0int
                } else {
                    1int
                },
                u64::MAX - driver.executor().cpu().retired,
                u64::MAX - driver.walked(),
    {
        let ghost c = driver.course();
        proof {
            driver.lemma_course();
        }
        match record_shard(driver, program) {
            Err(e) => {
                proof {
                    lemma_run_fails(c0, c, rules, empty, points, records@, e);
                }
                return Err(e);
            },
            Ok((record, last)) => {
                proof {
                    let d = driver.course();
                    lemma_runs_on(c, d, rules, empty, points, records@, record, last);
                    points = points.push(d.shard);
                }
                records.push(record);
                done = last;
            },
        }
    }
    Ok((records, Ghost(points)))
}

/// Runs a program to its end through the whole pipeline, giving the record of each shard. The last
/// one also holds the words that the run initializes and finalizes.
///
/// The course of the run that the contract speaks of is that of the live machine; where there are
/// records, it has ended. Every shard is recorded exactly that does not start inside an
/// unconstrained block and whose end no such block runs the clock past, as long as the same holds
/// of the chunks.
#[verifier::spinoff_prover]
pub fn run_full_pipeline(
    program: Arc<Program>,
    max_trace_size: u64,
    stdin: VecDeque<Vec<u8>>,
    costs: AirCosts,
    element_threshold: u64,
    height_threshold: u64,
) -> (r: Result<Vec<ExecutionRecord>, ExecutionError>)
    requires
        program.wf(),
        program.contains_pc(program.pc_start),
    ensures
        exists|c: Course, points: Seq<nat>|
            {
                &&& minimal::starts_at(c.start, *program, hook::contents(stdin@), Map::empty())
                &&& c.setup == fast_setup(*program, max_trace_size, None)
                &&& #[trigger] ran(
                    c,
                    shard_rules(
                        fast_setup(*program, max_trace_size, None),
                        costs,
                        element_threshold,
                        height_threshold,
                    ),
                    start_shape(*program, costs),
                    points,
                    r,
                )
            },
{
    let mut driver: ShardDriver = ShardDriver::new_with_stdin(program.clone(), max_trace_size, stdin);
    let ghost setup = driver.executor().setup();
    let ghost rules = shard_rules(setup, costs, element_threshold, height_threshold);
    let ghost empty = start_shape(setup.program, costs);
    let ghost c0 = driver.course();
    proof {
        driver.lemma_course();
    }
    if let Err(e) = driver.begin(program.clone(), costs, element_threshold, height_threshold) {
        proof {
            lemma_run_fails_at_once(c0, rules, empty, e);
        }
        return Err(e);
    }
    proof {
        lemma_no_records(driver.course(), rules, empty);
    }
    let (mut records, Ghost(points)) = match record_shards(&mut driver, &program) {
        Ok(recorded) => recorded,
        Err(e) => {
            return Err(e);
        },
    };
    proof {
        driver.lemma_course();
    }
    let ghost before = records@;
    if let Some((initialize, finalize)) = driver.global_memory_events() {
        if let Some(last) = records.pop() {
            records.push(with_globals(last, initialize, finalize));
        }
    }
    proof {
        assert(records@.drop_last() =~= before.drop_last());
    }
    let r: Result<Vec<ExecutionRecord>, ExecutionError> = Ok(records);
    proof {
        lemma_run_ends(driver.course(), rules, empty, points, before, r->Ok_0);
    }
    r
}

} // verus!
