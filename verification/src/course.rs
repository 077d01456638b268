//! The course of a run that is executed in chunks and cut into shards.
use vstd::prelude::*;

use crate::chips::{self, Ledger};
use crate::errors::ExecutionError;
use crate::events::MemValue;
use crate::machine::{Bus, Cpu};
use crate::minimal::{self, MinimalExecutor, Setup};
use crate::record::ExecutionRecord;
use crate::replay;
use crate::splicing::{self, Shape, SplicingStatus, SplicingVM, Walk};
use crate::trace::{MinimalTrace, TraceChunk};
use crate::tracing;

verus! {

/// The log of a live machine.
pub open spec fn log_of(c: Cpu) -> Seq<MemValue> {
    c.bus->Live_0.log
}

/// A live machine stands where a run would stand had its log never been taken.
pub open spec fn stands_at(c: Cpu, setup: Setup, start: Cpu, n: nat) -> bool {
    &&& setup.after(start, n) matches Some(w) && c == minimal::log_taken(w)
    &&& start.bus is Live
}

/// A chunk continues a run: what it logs comes behind what was logged before.
pub proof fn lemma_chunk(setup: Setup, start: Cpu, m: nat, n: nat)
    requires
        start.bus is Live,
        setup.after(start, m) is Some,
    ensures
        ({
            let w = setup.after(start, m)->Some_0;
            let c = minimal::log_taken(w);
            &&& w.bus is Live
            &&& setup.after(start, m + n) is Some == setup.after(c, n) is Some
            &&& setup.after(c, n) matches Some(end) ==> {
                let whole = setup.after(start, m + n)->Some_0;
                &&& end.bus is Live
                &&& whole == replay::relogged_cpu(log_of(w), end)
                &&& whole.bus is Live
                &&& log_of(whole) == log_of(w) + log_of(end)
                &&& minimal::log_taken(whole) == minimal::log_taken(end)
            }
        }),
{
    reveal(replay::relogged);
    let w = setup.after(start, m)->Some_0;
    let c = minimal::log_taken(w);
    replay::lemma_steps_are_live(start, setup.program, setup.max_syscall_cycles, m);
    replay::lemma_steps_are_live(c, setup.program, setup.max_syscall_cycles, n);
    replay::runs_add_up(start, setup.program, setup.max_syscall_cycles, m, n);
    replay::taking_the_log_changes_nothing(
        log_of(w),
        c,
        setup.program,
        setup.max_syscall_cycles,
        n,
    );
    assert(log_of(w) + Seq::<MemValue>::empty() =~= log_of(w));
    assert(replay::relogged_cpu(log_of(w), c) == w);
}

/// The run neither ends nor reaches its limit after any of its first `n` instructions.
pub open spec fn undisturbed(setup: Setup, start: Cpu, n: nat) -> bool {
    forall|k: nat|
        1 <= k <= n ==> (#[trigger] setup.after(start, k) matches Some(c) && !c.done(setup.program)
            && !minimal::over_limit(c, setup.max_cycles))
}

/// A chunk that goes on does not disturb the run.
pub proof fn lemma_undisturbed(setup: Setup, start: Cpu, m: nat, n: nat)
    requires
        start.bus is Live,
        setup.after(start, m) is Some,
        undisturbed(setup, start, m),
        undisturbed(setup, minimal::log_taken(setup.after(start, m)->Some_0), n),
    ensures
        undisturbed(setup, start, m + n),
{
    let c = minimal::log_taken(setup.after(start, m)->Some_0);
    assert forall|k: nat| 1 <= k <= m + n implies (#[trigger] setup.after(start, k) matches Some(d)
        && !d.done(setup.program) && !minimal::over_limit(d, setup.max_cycles)) by {
        if k > m {
            let j = (k - m) as nat;
            lemma_chunk(setup, start, m, j);
            assert(setup.after(c, j) is Some);
            assert(m + j == k);
        }
    }
}

/// A chunk that goes on is undisturbed.
pub proof fn lemma_goes_on(setup: Setup, c: Cpu, n: nat)
    requires
        setup.goes_on(c, n),
    ensures
        undisturbed(setup, c, n),
{
    assert forall|k: nat| 1 <= k <= n implies (#[trigger] setup.after(c, k) matches Some(d)
        && !d.done(setup.program) && !minimal::over_limit(d, setup.max_cycles)) by {
    }
}

/// A chunk that ends without the program ending is undisturbed.
pub proof fn lemma_full_chunk(setup: Setup, c: Cpu, n: nat)
    requires
        setup.stops(c, n),
        !setup.after(c, n)->Some_0.done(setup.program),
    ensures
        undisturbed(setup, c, n),
{
    assert forall|k: nat| 1 <= k <= n implies (#[trigger] setup.after(c, k) matches Some(d)
        && !d.done(setup.program) && !minimal::over_limit(d, setup.max_cycles)) by {
        if k < n {
            assert(setup.goes_on(c, (n - 1) as nat));
        }
    }
}

pub proof fn lemma_goes_fast(setup: Setup, start: Cpu, n: nat, m: nat)
    requires
        start.bus is Live,
        setup.after(start, n) is Some,
        undisturbed(setup, start, n),
        setup.stops(minimal::log_taken(setup.after(start, n)->Some_0), m),
    ensures
        ({
            let end = setup.after(minimal::log_taken(setup.after(start, n)->Some_0), m)->Some_0;
            &&& stands_at(minimal::log_taken(end), setup, start, n + m)
            &&& undisturbed(setup, start, (n + m - 1) as nat)
            &&& !end.done(setup.program) ==> undisturbed(setup, start, n + m)
        }),
{
    let before = minimal::log_taken(setup.after(start, n)->Some_0);
    lemma_chunk(setup, start, n, m);
    let end = setup.after(before, m)->Some_0;
    lemma_goes_on(setup, before, (m - 1) as nat);
    lemma_undisturbed(setup, start, n, (m - 1) as nat);
    assert((n + (m - 1) as nat) as nat == (n + m - 1) as nat);
    if !end.done(setup.program) {
        lemma_full_chunk(setup, before, m);
        lemma_undisturbed(setup, start, n, m);
    }
}

/// The course of a run: where it starts, after how many instructions each chunk ends (the first
/// entry is the start), and after how many instructions the open shard starts.
pub struct Course {
    pub setup: Setup,
    pub start: Cpu,
    pub cuts: Seq<nat>,
    pub shard: nat,
}

impl Course {
    /// The machine after `n` instructions, had the log never been taken.
    pub open spec fn whole(self, n: nat) -> Cpu {
        self.setup.after(self.start, n)->Some_0
    }

    /// The number of instructions that the live run has retired.
    pub open spec fn total(self) -> nat {
        self.cuts.last()
    }

    /// The log of the live run, had it never been taken.
    pub open spec fn log(self) -> Seq<MemValue> {
        log_of(self.whole(self.total()))
    }

    /// Where the last chunk starts.
    pub open spec fn base(self) -> nat {
        self.cuts[self.cuts.len() - 2]
    }

    /// The cuts are where chunks end.
    pub open spec fn chunked(self) -> bool {
        &&& self.cuts.len() >= 1
        &&& self.cuts[0] == 0
        &&& forall|i: int, j: int|
            0 <= i && i + 1 == j && j < self.cuts.len() ==> #[trigger] self.cuts[i]
                < #[trigger] self.cuts[j] && self.setup.stops(
                minimal::log_taken(self.whole(self.cuts[i])),
                (self.cuts[j] - self.cuts[i]) as nat,
            )
        &&& self.setup.after(self.start, self.total()) is Some
    }

    /// Nothing between two points of the run has a clock that reaches the clock at the second one.
    #[verifier::opaque]
    pub open spec fn steady(self, m: nat, n: nat) -> bool {
        forall|k: nat| m < k < n ==> (#[trigger] self.whole(k)).clk < self.whole(n).clk
    }

    /// No chunk starts inside an unconstrained block, and no such block runs the clock past the
    /// end of its chunk. Leaving a block sets the clock back and a chunk does not say whether a
    /// block is open, so a replay relies on both.
    #[verifier::opaque]
    pub open spec fn clean(self) -> bool {
        forall|i: int|
            0 <= i < self.cuts.len() - 1 ==> self.whole(#[trigger] self.cuts[i]).fork is None
                && self.steady(self.cuts[i], self.cuts[i + 1])
    }

    /// The run starts where a program starts.
    pub open spec fn starts_well(self) -> bool {
        &&& self.start.bus is Live
        &&& log_of(self.start).len() == 0
        &&& self.start.retired == 0
        &&& self.start.next_pc == self.start.pc.wrapping_add(4)
        &&& !self.start.delay
        &&& !self.start.exited
        &&& self.start.fork is None
    }

    /// The course is one of this executor.
    pub open spec fn follows(self, minimal: &MinimalExecutor) -> bool {
        &&& self.setup == minimal.setup()
        &&& self.setup.max_cycles is None
        &&& self.starts_well()
        &&& self.chunked()
        &&& self.total() == minimal.cpu().retired
        &&& minimal.cpu() == minimal::log_taken(self.whole(self.total()))
        &&& minimal.is_finished() ==> self.total() >= 1 && self.whole(self.total()).done(
            self.setup.program,
        ) && undisturbed(self.setup, self.start, (self.total() - 1) as nat)
        &&& !minimal.is_finished() ==> undisturbed(self.setup, self.start, self.total())
    }

    /// A shard that starts after `from` instructions is not cut after `n` instructions: it is not
    /// full there, or cutting is not allowed between a branch or jump and its delay slot, or the
    /// chunk ends there too.
    #[verifier::opaque]
    pub open spec fn uncut(self, rules: Walk, empty: Shape, from: nat, n: nat) -> bool {
        let c = self.whole(n);
        &&& !c.done(self.setup.program)
        &&& c.delay || self.cuts.contains(n) || !rules.shape_after(
            self.whole(from),
            empty,
            (n - from) as nat,
        ).full(rules.element_threshold, rules.height_threshold)
    }

    /// A shard goes from one point of the run to another: it is not cut in between, and it ends
    /// because the program ends or because it has reached its size.
    #[verifier::opaque]
    pub open spec fn is_shard(self, rules: Walk, empty: Shape, from: nat, to: nat, done: bool) -> bool {
        &&& from < to <= self.total()
        &&& forall|k: nat| from < k < to ==> #[trigger] self.uncut(rules, empty, from, k)
        &&& done == self.whole(to).done(self.setup.program)
        &&& !done ==> !self.whole(to).delay && rules.shape_after(
            self.whole(from),
            empty,
            (to - from) as nat,
        ).full(rules.element_threshold, rules.height_threshold)
    }

    /// A trace is the part of the run from one point to another.
    #[verifier::opaque]
    pub open spec fn is_part<T: MinimalTrace>(self, trace: &T, from: nat, to: nat) -> bool {
        let s = self.whole(from);
        let e = self.whole(to);
        &&& trace.wf()
        &&& trace.registers_at_start() == s.regs
        &&& trace.pc_at_start() == s.pc
        &&& trace.clk_at_start() == s.clk
        &&& trace.clk_at_end() == e.clk
        &&& log_of(s).len() <= log_of(e).len()
        &&& trace.entries() == log_of(e).skip(log_of(s).len() as int)
    }

    /// Nothing is pending: the machine can start again from registers, program counter and clock.
    pub open spec fn in_line(self, n: nat) -> bool {
        &&& !self.whole(n).delay
        &&& !self.whole(n).exited
        &&& self.whole(n).next_pc == self.whole(n).pc.wrapping_add(4)
    }

    /// Where a walk over the last chunk stands.
    pub open spec fn place(self, vm: &SplicingVM) -> nat {
        self.base() + vm.cpu().retired as nat
    }

    /// A walk over the last chunk keeps pace with the live run, and its open shard is in order.
    #[verifier::opaque]
    pub open spec fn keeps_pace(self, chunk: &TraceChunk, vm: &SplicingVM) -> bool {
        let m = self.place(vm);
        let s = self.whole(self.shard);
        &&& self.base() <= m < self.total()
        &&& self.shard <= m
        &&& replay::mirrors(vm.cpu(), self.whole(m), self.log())
        &&& vm.walk().clk_end == self.whole(self.total()).clk
        &&& log_of(self.whole(self.base())).len() <= self.log().len()
        &&& chunk.entries() == self.log().skip(log_of(self.whole(self.base())).len() as int)
        &&& self.in_line(self.shard)
        &&& vm.shard().registers@ == s.regs
        &&& vm.shard().pc == s.pc
        &&& vm.shard().clk == s.clk
        &&& log_of(s).len() <= log_of(self.whole(m)).len() <= self.log().len()
        &&& splicing::shard_entries(vm, chunk) == self.log().subrange(
            log_of(s).len() as int,
            log_of(self.whole(m)).len() as int,
        )
        &&& vm.checker().shape() == rules_of(vm).shape_after(
            s,
            vm.checker().empty_shape(),
            (m - self.shard) as nat,
        )
        &&& forall|k: nat|
            self.shard < k <= m ==> #[trigger] self.uncut(
                rules_of(vm),
                vm.checker().empty_shape(),
                self.shard,
                k,
            )
    }

    /// A walk has used up the last chunk, and its open shard is in order.
    #[verifier::opaque]
    pub open spec fn used_up_by(self, chunk: &TraceChunk, vm: &SplicingVM) -> bool {
        let s = self.whole(self.shard);
        &&& self.shard <= self.total()
        &&& !self.whole(self.total()).done(self.setup.program)
        &&& self.in_line(self.shard)
        &&& vm.shard().registers@ == s.regs
        &&& vm.shard().pc == s.pc
        &&& vm.shard().clk == s.clk
        &&& log_of(s).len() <= self.log().len()
        &&& splicing::shard_entries(vm, chunk) == self.log().subrange(
            log_of(s).len() as int,
            self.log().len() as int,
        )
        &&& vm.checker().shape() == rules_of(vm).shape_after(
            s,
            vm.checker().empty_shape(),
            (self.total() - self.shard) as nat,
        )
        &&& forall|k: nat|
            self.shard < k < self.total() ==> #[trigger] self.uncut(
                rules_of(vm),
                vm.checker().empty_shape(),
                self.shard,
                k,
            )
    }

    /// A walk over the last chunk.
    pub open spec fn walked_by(self, chunk: &TraceChunk, vm: &SplicingVM) -> bool {
        &&& self.cuts.len() >= 2
        &&& vm.wf()
        &&& vm.walks(chunk)
        &&& vm.ready()
        &&& self.setup.program.contains_pc(vm.shard().pc)
        &&& vm.walk().program == self.setup.program
        &&& vm.walk().max_syscall_cycles == self.setup.max_syscall_cycles
        &&& self.clean() ==> self.keeps_pace(chunk, vm)
    }
}

/// The costs and thresholds of a walk, whatever trace it is over.
pub open spec fn rules_of(vm: &SplicingVM) -> Walk {
    Walk { clk_end: 0, ..vm.walk() }
}

/// A run that got somewhere passed every point before.
pub proof fn lemma_passed(c: Course, n: nat)
    requires
        c.starts_well(),
        c.chunked(),
        n <= c.total(),
    ensures
        c.setup.after(c.start, n) is Some,
        c.whole(n).bus is Live,
        replay::begins(c.whole(n).bus, c.log()),
        log_of(c.whole(n)).len() <= c.log().len(),
        c.whole(n).retired == n,
        c.setup.after(c.whole(n), (c.total() - n) as nat) == Some(c.whole(c.total())),
{
    let p = c.setup.program;
    let cycles = c.setup.max_syscall_cycles;
    let k = (c.total() - n) as nat;
    replay::runs_add_up(c.start, p, cycles, n, k);
    assert(n + k == c.total());
    replay::lemma_steps_are_live(c.start, p, cycles, n);
    replay::lemma_steps_are_live(c.start, p, cycles, c.total());
    replay::a_run_follows(c.whole(n), p, cycles, k);
    minimal::lemma_run_retired(c.start, p, cycles, n);
    reveal(replay::follows);
}

/// From one point of the run to another.
pub proof fn lemma_between(c: Course, m: nat, n: nat)
    requires
        c.starts_well(),
        c.chunked(),
        m <= n <= c.total(),
    ensures
        c.setup.after(c.whole(m), (n - m) as nat) == Some(c.whole(n)),
        log_of(c.whole(m)).len() <= log_of(c.whole(n)).len(),
        log_of(c.whole(n)).take(log_of(c.whole(m)).len() as int) == log_of(c.whole(m)),
{
    lemma_passed(c, m);
    lemma_passed(c, n);
    replay::runs_add_up(
        c.start,
        c.setup.program,
        c.setup.max_syscall_cycles,
        m,
        (n - m) as nat,
    );
    replay::a_run_follows(
        c.whole(m),
        c.setup.program,
        c.setup.max_syscall_cycles,
        (n - m) as nat,
    );
    reveal(replay::follows);
}

/// A machine that mirrors the run keeps mirroring it.
pub proof fn lemma_pace(c: Course, r: Cpu, m: nat, n: nat)
    requires
        c.starts_well(),
        c.chunked(),
        m <= n <= c.total(),
        replay::mirrors(r, c.whole(m), c.log()),
    ensures
        c.setup.after(r, (n - m) as nat) matches Some(x) && replay::mirrors(
            x,
            c.whole(n),
            c.log(),
        ),
{
    lemma_passed(c, n);
    lemma_between(c, m, n);
    replay::lemma_steps(
        r,
        c.whole(m),
        c.setup.program,
        c.setup.max_syscall_cycles,
        (n - m) as nat,
        c.log(),
    );
}

/// Where a walk that keeps pace stops.
pub proof fn lemma_walk_stops(
    c: Course,
    walk: Walk,
    r: Cpu,
    m: nat,
    shape: Shape,
    n: nat,
    status: SplicingStatus,
)
    requires
        c.starts_well(),
        c.chunked(),
        c.cuts.len() >= 2,
        c.clean(),
        c.base() <= m < c.total(),
        undisturbed(c.setup, c.start, (c.total() - 1) as nat),
        replay::mirrors(r, c.whole(m), c.log()),
        walk.program == c.setup.program,
        walk.max_syscall_cycles == c.setup.max_syscall_cycles,
        walk.clk_end == c.whole(c.total()).clk,
        walk.stops(r, shape, n, status),
    ensures
        m + n <= c.total(),
        status == SplicingStatus::ShardBoundary ==> m + n < c.total(),
        status != SplicingStatus::ShardBoundary ==> m + n == c.total(),
        status == SplicingStatus::Done <==> m + n == c.total() && c.whole(c.total()).done(
            c.setup.program,
        ),
{
    reveal(Course::steady);
    reveal(Course::clean);
    let gap = (c.total() - m) as nat;
    lemma_pace(c, r, m, c.total());
    let last = walk.after(r, gap)->Some_0;
    assert(walk.after(r, gap) == c.setup.after(r, gap));
    assert(walk.status(last, walk.shape_after(r, shape, gap)) is Some);
    if n > gap {
        assert(walk.goes_on(r, shape, (n - 1) as nat));
        assert(walk.after(r, gap) is Some);
        assert(false);
    }
    let at = (m + n) as nat;
    lemma_pace(c, r, m, at);
    let x = walk.after(r, n)->Some_0;
    assert(walk.after(r, n) == c.setup.after(r, (at - m) as nat));
    if at < c.total() {
        assert(c.setup.after(c.start, at) is Some);
        let i = c.cuts.len() - 2;
        assert(c.steady(c.cuts[i], c.cuts[i + 1]));
        assert(c.whole(at).clk < c.whole(c.total()).clk);
    }
}

/// A walk that keeps pace does not fail.
pub proof fn lemma_walk_succeeds(
    c: Course,
    walk: Walk,
    r: Cpu,
    m: nat,
    shape: Shape,
    n: nat,
    e: ExecutionError,
    end: Cpu,
)
    requires
        c.starts_well(),
        c.chunked(),
        m < c.total(),
        replay::mirrors(r, c.whole(m), c.log()),
        walk.program == c.setup.program,
        walk.max_syscall_cycles == c.setup.max_syscall_cycles,
        walk.clk_end == c.whole(c.total()).clk,
    ensures
        !walk.fails(r, shape, n, e, end),
{
    let gap = (c.total() - m) as nat;
    lemma_pace(c, r, m, c.total());
    let last = walk.after(r, gap)->Some_0;
    assert(walk.after(r, gap) == c.setup.after(r, gap));
    assert(walk.status(last, walk.shape_after(r, shape, gap)) is Some);
    if n >= gap {
        assert(walk.after(r, gap) is Some);
        assert(!walk.goes_on(r, shape, n));
    } else {
        lemma_pace(c, r, m, (m + n + 1) as nat);
        assert(walk.after(r, n + 1) == c.setup.after(r, (m + n + 1 - m) as nat));
    }
}

/// The size of a shard is the same on a machine that mirrors the run.
pub proof fn lemma_same_shape(c: Course, walk: Walk, r: Cpu, m: nat, shape: Shape, n: nat)
    requires
        c.starts_well(),
        c.chunked(),
        m + n <= c.total(),
        replay::mirrors(r, c.whole(m), c.log()),
        walk.program == c.setup.program,
        walk.max_syscall_cycles == c.setup.max_syscall_cycles,
    ensures
        walk.shape_after(r, shape, n) == (Walk { clk_end: 0, ..walk }).shape_after(
            c.whole(m),
            shape,
            n,
        ),
    decreases n,
{
    let rules = Walk { clk_end: 0, ..walk };
    if n == 0 {
        splicing::lemma_shape_after(walk, r, shape, 0);
        splicing::lemma_shape_after(rules, c.whole(m), shape, 0);
    } else {
        let k = (n - 1) as nat;
        lemma_same_shape(c, walk, r, m, shape, k);
        splicing::lemma_shape_after(walk, r, shape, k);
        splicing::lemma_shape_after(rules, c.whole(m), shape, k);
        lemma_pace(c, r, m, m + k);
        lemma_between(c, m, m + k);
        assert(walk.after(r, k) == c.setup.after(r, (m + k - m) as nat));
        assert(rules.after(c.whole(m), k) == c.setup.after(c.whole(m), (m + k - m) as nat));
    }
}

/// The size of a shard accumulates.
pub proof fn lemma_shape_adds_up(c: Course, rules: Walk, from: nat, m: nat, shape: Shape, n: nat)
    requires
        c.starts_well(),
        c.chunked(),
        from <= m,
        m + n <= c.total(),
        rules.program == c.setup.program,
        rules.max_syscall_cycles == c.setup.max_syscall_cycles,
    ensures
        rules.shape_after(c.whole(from), shape, (m + n - from) as nat) == rules.shape_after(
            c.whole(m),
            rules.shape_after(c.whole(from), shape, (m - from) as nat),
            n,
        ),
    decreases n,
{
    let mid = rules.shape_after(c.whole(from), shape, (m - from) as nat);
    if n == 0 {
        splicing::lemma_shape_after(rules, c.whole(m), mid, 0);
    } else {
        let k = (n - 1) as nat;
        lemma_shape_adds_up(c, rules, from, m, shape, k);
        splicing::lemma_shape_after(rules, c.whole(m), mid, k);
        splicing::lemma_shape_after(rules, c.whole(from), shape, (m + k - from) as nat);
        lemma_between(c, m, m + k);
        lemma_between(c, from, m + k);
        assert((m + k - from) as nat + 1 == (m + n - from) as nat);
        assert(rules.after(c.whole(m), k) == c.setup.after(c.whole(m), (m + k - m) as nat));
        assert(rules.after(c.whole(from), (m + k - from) as nat) == c.setup.after(
            c.whole(from),
            (m + k - from) as nat,
        ));
    }
}

/// What a walk has done when it stops.
#[verifier::spinoff_prover]
#[verifier::rlimit(40)]
pub proof fn lemma_walked(
    c: Course,
    chunk: &TraceChunk,
    vm: &SplicingVM,
    end: &SplicingVM,
    n: nat,
    status: SplicingStatus,
)
    requires
        c.starts_well(),
        c.chunked(),
        c.clean(),
        c.walked_by(chunk, vm),
        undisturbed(c.setup, c.start, (c.total() - 1) as nat),
        end.walk() == vm.walk(),
        end.shard() == vm.shard(),
        end.shard_start() == vm.shard_start(),
        end.walks(chunk),
        end.checker().same_rules(&vm.checker()),
        end.checker().shape() == vm.walk().shape_after(vm.cpu(), vm.checker().shape(), n),
        vm.walk().stops(vm.cpu(), vm.checker().shape(), n, status),
        vm.walk().after(vm.cpu(), n) == Some(end.cpu()),
    ensures
        c.place(end) == c.place(vm) + n,
        c.place(end) <= c.total(),
        status == SplicingStatus::ShardBoundary ==> c.place(end) < c.total(),
        status != SplicingStatus::ShardBoundary ==> c.place(end) == c.total(),
        status == SplicingStatus::TraceEnd ==> !c.whole(c.total()).done(c.setup.program),
        replay::mirrors(end.cpu(), c.whole(c.place(end)), c.log()),
        log_of(c.whole(c.shard)).len() <= log_of(c.whole(c.place(end))).len() <= c.log().len(),
        splicing::shard_entries(end, chunk) == c.log().subrange(
            log_of(c.whole(c.shard)).len() as int,
            log_of(c.whole(c.place(end))).len() as int,
        ),
        end.checker().shape() == rules_of(vm).shape_after(
            c.whole(c.shard),
            vm.checker().empty_shape(),
            (c.place(end) - c.shard) as nat,
        ),
        forall|k: nat|
            c.shard < k < c.place(end) ==> #[trigger] c.uncut(
                rules_of(vm),
                vm.checker().empty_shape(),
                c.shard,
                k,
            ),
        status != SplicingStatus::TraceEnd ==> c.is_shard(
            rules_of(vm),
            vm.checker().empty_shape(),
            c.shard,
            c.place(end),
            status == SplicingStatus::Done,
        ),
        status == SplicingStatus::TraceEnd ==> c.used_up_by(chunk, end),
{
    reveal(Course::uncut);
    reveal(Course::is_shard);
    reveal(Course::keeps_pace);
    reveal(Course::used_up_by);
    let walk = vm.walk();
    let rules = rules_of(vm);
    let empty = vm.checker().empty_shape();
    let r = vm.cpu();
    let m = c.place(vm);
    let shape = vm.checker().shape();
    minimal::lemma_run_retired(r, walk.program, walk.max_syscall_cycles, n);
    lemma_walk_stops(c, walk, r, m, shape, n, status);
    let at = m + n;
    lemma_pace(c, r, m, at);
    assert(walk.after(r, n) == c.setup.after(r, (at - m) as nat));
    lemma_between(c, m, at);
    lemma_between(c, c.shard, m);
    lemma_passed(c, at);
    lemma_same_shape(c, walk, r, m, shape, n);
    lemma_shape_adds_up(c, rules, c.shard, m, empty, n);
    // The part of the log that the shard has used up.
    let entries = chunk.entries();
    let bl = log_of(c.whole(c.base())).len() as int;
    let sl = log_of(c.whole(c.shard)).len() as int;
    let ml = log_of(c.whole(m)).len() as int;
    let al = log_of(c.whole(at)).len() as int;
    assert(vm.cpu().bus == Bus::Replay(c.log().skip(ml)));
    assert(end.cpu().bus == Bus::Replay(c.log().skip(al)));
    assert(vm.consumed(chunk) == ml - bl);
    assert(end.consumed(chunk) == al - bl);
    let from = vm.shard_start() as int;
    assert(entries.subrange(from, al - bl) =~= entries.subrange(from, ml - bl) + entries.subrange(
        ml - bl,
        al - bl,
    ));
    assert(entries.subrange(ml - bl, al - bl) =~= c.log().subrange(ml, al));
    assert(splicing::shard_entries(end, chunk) =~= splicing::shard_entries(vm, chunk)
        + c.log().subrange(ml, al));
    assert(c.log().subrange(sl, ml) + c.log().subrange(ml, al) =~= c.log().subrange(sl, al));
    // Where the shard was not cut.
    assert forall|k: nat| c.shard < k < at implies #[trigger] c.uncut(rules, empty, c.shard, k) by {
        if k > m {
            let j = (k - m) as nat;
            assert(walk.goes_on(r, shape, (n - 1) as nat));
            assert(walk.after(r, j) is Some);
            lemma_pace(c, r, m, k);
            assert(walk.after(r, j) == c.setup.after(r, (k - m) as nat));
            lemma_same_shape(c, walk, r, m, shape, j);
            lemma_shape_adds_up(c, rules, c.shard, m, empty, j);
            assert((m + j - c.shard) as nat == (k - c.shard) as nat);
        }
    }
}

/// A chunk that ends without the program ending ends where the machine can start again.
pub proof fn lemma_boundary(c: Course, m: nat, n: nat)
    requires
        c.starts_well(),
        c.setup.after(c.start, m) is Some,
        c.setup.stops(minimal::log_taken(c.whole(m)), n),
        c.setup.after(c.start, m + n) is Some,
        !c.whole(m + n).done(c.setup.program),
    ensures
        c.in_line(m + n),
{
    lemma_chunk(c.setup, c.start, m, n);
    lemma_in_line(c, m + n);
}

/// Outside a delay slot the machine can start again.
pub proof fn lemma_in_line(c: Course, n: nat)
    requires
        c.starts_well(),
        n >= 1,
        c.setup.after(c.start, n) is Some,
        !c.whole(n).delay,
        !c.whole(n).done(c.setup.program),
    ensures
        c.in_line(n),
{
    let before = c.setup.after(c.start, (n - 1) as nat)->Some_0;
    crate::laws::no_delay_slot_means_in_line(
        before,
        c.setup.program,
        c.setup.max_syscall_cycles,
    );
}

/// A run that is clean with one more chunk was clean before.
#[verifier::spinoff_prover]
proof fn lemma_was_clean(c: Course, d: Course, n: nat)
    requires
        c.cuts.len() >= 1,
        d == (Course { cuts: c.cuts.push(c.total() + n), ..c }),
        d.clean(),
    ensures
        c.clean(),
{
    reveal(Course::steady);
    reveal(Course::clean);
    assert forall|i: int| 0 <= i < c.cuts.len() - 1 implies c.whole(#[trigger] c.cuts[i]).fork is None
        && c.steady(c.cuts[i], c.cuts[i + 1]) by {
        assert(d.whole(d.cuts[i]).fork is None);
        assert(d.cuts[i + 1] == c.cuts[i + 1]);
        assert(d.steady(d.cuts[i], d.cuts[i + 1]));
        assert forall|k: nat| c.cuts[i] < k < c.cuts[i + 1] implies (#[trigger] c.whole(k)).clk
            < c.whole(c.cuts[i + 1]).clk by {
            assert(d.whole(k) == c.whole(k));
        }
    }
}

/// The next chunk of a run.
#[verifier::spinoff_prover]
#[verifier::rlimit(40)]
pub proof fn lemma_next_chunk(c: Course, d: Course, n: nat)
    requires
        c.starts_well(),
        c.chunked(),
        undisturbed(c.setup, c.start, c.total()),
        c.setup.stops(minimal::log_taken(c.whole(c.total())), n),
        d == (Course { cuts: c.cuts.push(c.total() + n), ..c }),
    ensures
        d.starts_well(),
        d.chunked(),
        d.cuts.len() >= 2,
        d.base() == c.total(),
        d.total() == c.total() + n,
        n >= 1,
        d.clean() ==> c.clean(),
        minimal::log_taken(d.whole(d.total())) == minimal::log_taken(
            c.setup.after(minimal::log_taken(c.whole(c.total())), n)->Some_0,
        ),
        d.whole(d.total()).done(d.setup.program) == c.setup.after(
            minimal::log_taken(c.whole(c.total())),
            n,
        )->Some_0.done(c.setup.program),
        d.whole(d.total()).clk == c.setup.after(
            minimal::log_taken(c.whole(c.total())),
            n,
        )->Some_0.clk,
        d.log() == c.log() + log_of(
            c.setup.after(minimal::log_taken(c.whole(c.total())), n)->Some_0,
        ),
        undisturbed(d.setup, d.start, (d.total() - 1) as nat),
        !d.whole(d.total()).done(d.setup.program) ==> undisturbed(d.setup, d.start, d.total())
            && d.in_line(d.total()),
{
    lemma_chunk(c.setup, c.start, c.total(), n);
    lemma_goes_fast(c.setup, c.start, c.total(), n);
    assert forall|i: int, j: int|
        0 <= i && i + 1 == j && j < d.cuts.len() implies #[trigger] d.cuts[i] < #[trigger] d.cuts[j]
        && d.setup.stops(
        minimal::log_taken(d.whole(d.cuts[i])),
        (d.cuts[j] - d.cuts[i]) as nat,
    ) by {
        if j < c.cuts.len() {
            assert(c.cuts[i] < c.cuts[j]);
            assert(d.cuts[i] == c.cuts[i]);
            assert(d.cuts[j] == c.cuts[j]);
        }
    }
    if d.clean() {
        lemma_was_clean(c, d, n);
    }
    if !d.whole(d.total()).done(d.setup.program) {
        lemma_boundary(c, c.total(), n);
    }
}

/// Where a shard was not cut it is still not cut when another chunk follows.
proof fn lemma_still_uncut(c: Course, d: Course, n: nat, rules: Walk, empty: Shape)
    requires
        c.cuts.len() >= 1,
        undisturbed(c.setup, c.start, c.total()),
        d == (Course { cuts: c.cuts.push(c.total() + n), ..c }),
        forall|k: nat|
            c.shard < k < c.total() ==> #[trigger] c.uncut(rules, empty, c.shard, k),
    ensures
        forall|k: nat|
            d.shard < k <= c.total() ==> #[trigger] d.uncut(rules, empty, d.shard, k),
{
    reveal(Course::uncut);
    assert forall|k: nat| d.shard < k <= c.total() implies #[trigger] d.uncut(
        rules,
        empty,
        d.shard,
        k,
    ) by {
        assert(d.whole(k) == c.whole(k));
        assert(d.whole(d.shard) == c.whole(c.shard));
        if k < c.total() {
            assert(c.uncut(rules, empty, c.shard, k));
            if c.cuts.contains(k) {
                let j = c.cuts.index_of(k);
                assert(d.cuts[j] == k);
            }
        } else {
            assert(d.cuts[c.cuts.len() - 1] == c.total());
            assert(c.setup.after(c.start, k) is Some);
        }
    }
}

/// A walk that goes on with the next chunk keeps pace.
#[verifier::spinoff_prover]
#[verifier::rlimit(40)]
pub proof fn lemma_resumed(
    c: Course,
    d: Course,
    n: nat,
    rules: Walk,
    empty: Shape,
    chunk: &TraceChunk,
    vm: &SplicingVM,
)
    requires
        c.starts_well(),
        c.chunked(),
        undisturbed(c.setup, c.start, c.total()),
        c.setup.stops(minimal::log_taken(c.whole(c.total())), n),
        d == (Course { cuts: c.cuts.push(c.total() + n), ..c }),
        d.clean(),
        c.shard <= c.total(),
        c.in_line(c.total()),
        c.in_line(c.shard),
        chunk.start_registers@ == c.whole(c.total()).regs,
        chunk.pc_start == c.whole(c.total()).pc,
        chunk.clk_start == c.whole(c.total()).clk,
        chunk.clk_end == d.whole(d.total()).clk,
        chunk.mem_reads@ == log_of(
            c.setup.after(minimal::log_taken(c.whole(c.total())), n)->Some_0,
        ),
        splicing::starts_with(vm.cpu(), chunk),
        vm.walks(chunk),
        vm.consumed(chunk) == 0,
        vm.shard_start() == 0,
        vm.walk().program == c.setup.program,
        vm.walk().max_syscall_cycles == c.setup.max_syscall_cycles,
        rules_of(vm) == rules,
        vm.checker().empty_shape() == empty,
        vm.shard().registers@ == c.whole(c.shard).regs,
        vm.shard().pc == c.whole(c.shard).pc,
        vm.shard().clk == c.whole(c.shard).clk,
        log_of(c.whole(c.shard)).len() <= c.log().len(),
        vm.shard().carried@ == c.log().subrange(
            log_of(c.whole(c.shard)).len() as int,
            c.log().len() as int,
        ),
        vm.checker().shape() == rules.shape_after(
            c.whole(c.shard),
            empty,
            (c.total() - c.shard) as nat,
        ),
        forall|k: nat|
            c.shard < k < c.total() ==> #[trigger] c.uncut(rules, empty, c.shard, k),
    ensures
        d.keeps_pace(chunk, vm),
{
    reveal(Course::clean);
    reveal(Course::keeps_pace);
    lemma_next_chunk(c, d, n);
    lemma_passed(d, c.total());
    lemma_passed(d, c.shard);
    let w = c.whole(c.total());
    let i = d.cuts.len() - 2;
    assert(d.whole(d.cuts[i]).fork is None);
    let last = log_of(c.setup.after(minimal::log_taken(w), n)->Some_0);
    assert(d.log().skip(c.log().len() as int) =~= last);
    assert(d.log().subrange(
        log_of(c.whole(c.shard)).len() as int,
        c.log().len() as int,
    ) =~= c.log().subrange(log_of(c.whole(c.shard)).len() as int, c.log().len() as int));
    assert(splicing::shard_entries(vm, chunk) =~= vm.shard().carried@);
    lemma_still_uncut(c, d, n, rules, empty);
    assert(d.place(vm) == c.total());
    assert(replay::mirrors(vm.cpu(), d.whole(d.place(vm)), d.log()));
}

/// A shard that is spliced out is its part of the run.
pub proof fn lemma_spliced<T: MinimalTrace>(
    c: Course,
    chunk: &TraceChunk,
    vm: &SplicingVM,
    trace: &T,
)
    requires
        c.starts_well(),
        c.chunked(),
        c.shard <= c.place(vm) <= c.total(),
        replay::mirrors(vm.cpu(), c.whole(c.place(vm)), c.log()),
        vm.shard().registers@ == c.whole(c.shard).regs,
        vm.shard().pc == c.whole(c.shard).pc,
        vm.shard().clk == c.whole(c.shard).clk,
        splicing::shard_entries(vm, chunk) == c.log().subrange(
            log_of(c.whole(c.shard)).len() as int,
            log_of(c.whole(c.place(vm))).len() as int,
        ),
        trace.wf(),
        trace.registers_at_start() == vm.shard().registers@,
        trace.pc_at_start() == vm.shard().pc,
        trace.clk_at_start() == vm.shard().clk,
        trace.clk_at_end() == vm.cpu().clk,
        trace.entries() == splicing::shard_entries(vm, chunk),
    ensures
        c.is_part(trace, c.shard, c.place(vm)),
{
    reveal(Course::is_part);
    lemma_between(c, c.shard, c.place(vm));
    lemma_passed(c, c.place(vm));
    let sl = log_of(c.whole(c.shard)).len() as int;
    let ml = log_of(c.whole(c.place(vm))).len() as int;
    assert(log_of(c.whole(c.place(vm))).skip(sl) =~= c.log().subrange(sl, ml)) by {
        assert(c.log().take(ml) == log_of(c.whole(c.place(vm))));
    }
}

/// A walk keeps pace with the next shard.
pub proof fn lemma_new_shard(
    c: Course,
    d: Course,
    chunk: &TraceChunk,
    before: &SplicingVM,
    vm: &SplicingVM,
)
    requires
        c.starts_well(),
        c.chunked(),
        c.cuts.len() >= 2,
        undisturbed(c.setup, c.start, (c.total() - 1) as nat),
        c.base() <= c.place(before) < c.total(),
        1 <= c.place(before),
        replay::mirrors(before.cpu(), c.whole(c.place(before)), c.log()),
        before.walk().clk_end == c.whole(c.total()).clk,
        log_of(c.whole(c.base())).len() <= c.log().len(),
        chunk.entries() == c.log().skip(log_of(c.whole(c.base())).len() as int),
        !c.whole(c.place(before)).delay,
        d == (Course { shard: c.place(before), ..c }),
        vm.cpu() == before.cpu(),
        vm.walk() == before.walk(),
        vm.walks(chunk),
        vm.checker().shape() == vm.checker().empty_shape(),
        vm.shard_start() == before.consumed(chunk),
        vm.shard().registers@ == before.cpu().regs,
        vm.shard().pc == before.cpu().pc,
        vm.shard().clk == before.cpu().clk,
        vm.shard().carried@.len() == 0,
    ensures
        d.keeps_pace(chunk, vm),
        d.shard == d.place(vm),
{
    reveal(Course::keeps_pace);
    let m = c.place(before);
    assert(c.setup.after(c.start, m) is Some);
    lemma_in_line(c, m);
    lemma_passed(c, m);
    splicing::lemma_shape_after(
        rules_of(vm),
        c.whole(m),
        vm.checker().empty_shape(),
        0,
    );
    let ml = log_of(c.whole(m)).len() as int;
    assert(splicing::shard_entries(vm, chunk) =~= c.log().subrange(ml, ml));
}

/// The live run fails after the instructions retired so far and some more.
pub open spec fn fails_after(c: Course, e: ExecutionError) -> bool {
    exists|n: nat|
        n >= c.total() && #[trigger] undisturbed(c.setup, c.start, n) && (c.setup.after(
            c.start,
            n,
        ) matches Some(last) && last.step(c.setup.program, c.setup.max_syscall_cycles).1 == Err::<
            (),
            ExecutionError,
        >(e))
}

/// The live run fails: an instruction does, before the program ends.
pub open spec fn fails(c: Course, e: ExecutionError) -> bool {
    exists|n: nat| #[trigger]
        undisturbed(c.setup, c.start, n) && (c.setup.after(c.start, n) matches Some(last)
            && last.step(c.setup.program, c.setup.max_syscall_cycles).1 == Err::<
            (),
            ExecutionError,
        >(e))
}

/// A run that fails later on fails.
pub proof fn lemma_later_failure(c: Course, d: Course, e: ExecutionError)
    requires
        c.start == d.start,
        c.setup == d.setup,
        c.total() <= d.total(),
        fails_after(d, e),
    ensures
        fails_after(c, e),
{
    let n = choose|n: nat|
        n >= d.total() && #[trigger] undisturbed(d.setup, d.start, n) && (d.setup.after(
            d.start,
            n,
        ) matches Some(last) && last.step(d.setup.program, d.setup.max_syscall_cycles).1 == Err::<
            (),
            ExecutionError,
        >(e));
    assert(undisturbed(c.setup, c.start, n));
}

/// A course has the same shards and parts wherever its open shard starts.
pub proof fn lemma_same_parts(
    c: Course,
    d: Course,
    rules: Walk,
    empty: Shape,
    from: nat,
    to: nat,
)
    requires
        d == (Course { shard: d.shard, ..c }),
    ensures
        c.clean() ==> d.clean(),
        d.clean() ==> c.clean(),
        c.is_shard(rules, empty, from, to, true) ==> d.is_shard(rules, empty, from, to, true),
        c.is_shard(rules, empty, from, to, false) ==> d.is_shard(rules, empty, from, to, false),
{
    reveal(Course::uncut);
    reveal(Course::is_shard);
    reveal(Course::steady);
    reveal(Course::clean);
    assert forall|k: nat| d.whole(k) == #[trigger] c.whole(k) by {}
    assert forall|k: nat| c.uncut(rules, empty, from, k) implies #[trigger] d.uncut(
        rules,
        empty,
        from,
        k,
    ) by {}
    assert forall|m: nat, n: nat| #[trigger] c.steady(m, n) == d.steady(m, n) by {
        assert forall|k: nat| m < k < n && c.steady(m, n) implies (#[trigger] d.whole(k)).clk
            < d.whole(n).clk by {
            assert(c.whole(k).clk < c.whole(n).clk);
        }
        assert forall|k: nat| m < k < n && d.steady(m, n) implies (#[trigger] c.whole(k)).clk
            < c.whole(n).clk by {
            assert(d.whole(k).clk < d.whole(n).clk);
        }
    }
    if c.clean() {
        assert forall|i: int| 0 <= i < d.cuts.len() - 1 implies d.whole(#[trigger] d.cuts[i]).fork is None
            && d.steady(d.cuts[i], d.cuts[i + 1]) by {
            assert(c.whole(c.cuts[i]).fork is None);
            assert(c.steady(c.cuts[i], c.cuts[i + 1]));
        }
    }
    if d.clean() {
        assert forall|i: int| 0 <= i < c.cuts.len() - 1 implies c.whole(#[trigger] c.cuts[i]).fork is None
            && c.steady(c.cuts[i], c.cuts[i + 1]) by {
            assert(d.whole(d.cuts[i]).fork is None);
            assert(d.steady(d.cuts[i], d.cuts[i + 1]));
        }
    }
    if c.is_shard(rules, empty, from, to, true) {
        assert forall|k: nat| from < k < to implies #[trigger] d.uncut(rules, empty, from, k) by {
            assert(c.uncut(rules, empty, from, k));
        }
    }
    if c.is_shard(rules, empty, from, to, false) {
        assert forall|k: nat| from < k < to implies #[trigger] d.uncut(rules, empty, from, k) by {
            assert(c.uncut(rules, empty, from, k));
        }
    }
}

/// What a walk that keeps pace is known to do.
pub proof fn lemma_keeping_pace(c: Course, chunk: &TraceChunk, vm: &SplicingVM)
    requires
        c.keeps_pace(chunk, vm),
    ensures
        c.base() <= c.place(vm) < c.total(),
        c.shard <= c.place(vm),
        replay::mirrors(vm.cpu(), c.whole(c.place(vm)), c.log()),
        vm.walk().clk_end == c.whole(c.total()).clk,
        log_of(c.whole(c.base())).len() <= c.log().len(),
        chunk.entries() == c.log().skip(log_of(c.whole(c.base())).len() as int),
        c.in_line(c.shard),
        vm.shard().registers@ == c.whole(c.shard).regs,
        vm.shard().pc == c.whole(c.shard).pc,
        vm.shard().clk == c.whole(c.shard).clk,
{
    reveal(Course::keeps_pace);
}

/// A walk at the start of a shard keeps pace whatever the shard is measured by.
pub proof fn lemma_other_limits(c: Course, chunk: &TraceChunk, before: &SplicingVM, vm: &SplicingVM)
    requires
        c.keeps_pace(chunk, before),
        c.shard == c.place(before),
        vm.cpu() == before.cpu(),
        vm.shard() == before.shard(),
        vm.shard_start() == before.shard_start(),
        vm.walk().clk_end == before.walk().clk_end,
        vm.checker().shape() == vm.checker().empty_shape(),
    ensures
        c.keeps_pace(chunk, vm),
{
    reveal(Course::keeps_pace);
    splicing::lemma_shape_after(
        rules_of(vm),
        c.whole(c.shard),
        vm.checker().empty_shape(),
        0,
    );
    assert(splicing::shard_entries(vm, chunk) == splicing::shard_entries(before, chunk));
}

/// A walk that used up a chunk goes on with the next one.
pub proof fn lemma_crossed(
    c: Course,
    d: Course,
    n: nat,
    old_chunk: &TraceChunk,
    before: &SplicingVM,
    chunk: &TraceChunk,
    vm: &SplicingVM,
)
    requires
        c.starts_well(),
        c.chunked(),
        undisturbed(c.setup, c.start, c.total()),
        c.total() >= 1,
        c.in_line(c.total()),
        c.setup.stops(minimal::log_taken(c.whole(c.total())), n),
        d == (Course { cuts: c.cuts.push(c.total() + n), ..c }),
        d.clean(),
        c.used_up_by(old_chunk, before),
        chunk.start_registers@ == c.whole(c.total()).regs,
        chunk.pc_start == c.whole(c.total()).pc,
        chunk.clk_start == c.whole(c.total()).clk,
        chunk.clk_end == d.whole(d.total()).clk,
        chunk.mem_reads@ == log_of(
            c.setup.after(minimal::log_taken(c.whole(c.total())), n)->Some_0,
        ),
        splicing::starts_with(vm.cpu(), chunk),
        vm.walks(chunk),
        vm.consumed(chunk) == 0,
        vm.shard_start() == 0,
        rules_of(vm) == rules_of(before),
        vm.walk().program == c.setup.program,
        vm.walk().max_syscall_cycles == c.setup.max_syscall_cycles,
        vm.checker() == before.checker(),
        vm.shard().registers == before.shard().registers,
        vm.shard().pc == before.shard().pc,
        vm.shard().clk == before.shard().clk,
        vm.shard().carried@ == splicing::shard_entries(before, old_chunk),
    ensures
        d.keeps_pace(chunk, vm),
{
    reveal(Course::used_up_by);
    lemma_resumed(
        c,
        d,
        n,
        rules_of(before),
        before.checker().empty_shape(),
        chunk,
        vm,
    );
}

/// A run that is undisturbed has not ended.
pub proof fn lemma_unfinished(c: Course)
    requires
        c.chunked(),
        c.cuts.len() >= 2,
        undisturbed(c.setup, c.start, c.total()),
    ensures
        !c.whole(c.total()).done(c.setup.program),
{
    let i = c.cuts.len() - 2;
    assert(c.cuts[i] < c.cuts[i + 1]);
    assert(c.setup.after(c.start, c.total()) is Some);
}

/// Between chunks the machine can start again.
pub proof fn lemma_between_chunks(c: Course)
    requires
        c.starts_well(),
        c.chunked(),
        c.cuts.len() >= 2,
        !c.whole(c.total()).done(c.setup.program),
    ensures
        c.in_line(c.total()),
        c.total() >= 1,
{
    let i = c.cuts.len() - 2;
    assert(c.cuts[i] < c.cuts[i + 1]);
    lemma_passed(c, c.cuts[i]);
    lemma_boundary(c, c.cuts[i], (c.cuts[i + 1] - c.cuts[i]) as nat);
}

/// The processor events of a part of the run.
pub open spec fn part_events(c: Course, from: nat, to: nat) -> Ledger {
    chips::traced(
        Ledger::empty(),
        c.whole(from),
        c.setup.program,
        c.setup.max_syscall_cycles,
        (to - from) as nat,
    )
}

/// A machine that starts with a part of the run and nothing pending.
proof fn lemma_part_mirrors<T: MinimalTrace>(c: Course, trace: &T, r: Cpu, from: nat, to: nat, k: nat)
    requires
        c.starts_well(),
        c.chunked(),
        from <= k <= to <= c.total(),
        c.is_part(trace, from, to),
        c.in_line(from),
        c.whole(from).fork is None,
        splicing::starts_with(r, trace),
    ensures
        c.setup.after(r, (k - from) as nat) matches Some(x) && replay::mirrors(
            x,
            c.whole(k),
            log_of(c.whole(to)),
        ),
{
    reveal(Course::is_part);
    let total = log_of(c.whole(to));
    lemma_passed(c, from);
    lemma_passed(c, to);
    lemma_passed(c, k);
    lemma_between(c, from, k);
    lemma_between(c, k, to);
    replay::lemma_steps(
        r,
        c.whole(from),
        c.setup.program,
        c.setup.max_syscall_cycles,
        (k - from) as nat,
        total,
    );
}

proof fn lemma_same_events<T: MinimalTrace>(
    c: Course,
    trace: &T,
    r: Cpu,
    from: nat,
    to: nat,
    n: nat,
)
    requires
        c.starts_well(),
        c.chunked(),
        from + n <= to <= c.total(),
        c.is_part(trace, from, to),
        c.in_line(from),
        c.whole(from).fork is None,
        splicing::starts_with(r, trace),
    ensures
        chips::traced(
            Ledger::empty(),
            r,
            c.setup.program,
            c.setup.max_syscall_cycles,
            n,
        ) == chips::traced(
            Ledger::empty(),
            c.whole(from),
            c.setup.program,
            c.setup.max_syscall_cycles,
            n,
        ),
    decreases n,
{
    if n > 0 {
        let k = (n - 1) as nat;
        let p = c.setup.program;
        let cycles = c.setup.max_syscall_cycles;
        let total = log_of(c.whole(to));
        lemma_same_events(c, trace, r, from, to, k);
        lemma_part_mirrors(c, trace, r, from, to, from + k);
        lemma_part_mirrors(c, trace, r, from, to, from + n);
        lemma_between(c, from, from + k);
        lemma_between(c, from, from + n);
        lemma_between(c, from + n, to);
        let x = r.steps(p, cycles, k)->Some_0;
        let a = c.whole(from).steps(p, cycles, k)->Some_0;
        assert(a == c.whole(from + k));
        assert(c.whole(from).steps(p, cycles, n) == Some(a.step(p, cycles).0));
        assert(r.steps(p, cycles, n) == Some(x.step(p, cycles).0));
        assert(replay::begins(c.whole(from + n).bus, total));
        replay::a_replay_records_what_the_run_does(x, a, p, cycles, total);
    }
}

/// Tracing a shard records exactly its part of the run.
///
/// A shard that does not start inside an unconstrained block, and in which no such block runs the
/// clock past its end, is traced without failing, and its record holds the events of
/// that part of the run, chip by chip.
pub proof fn a_shard_is_traced_exactly<T: MinimalTrace>(
    c: Course,
    trace: &T,
    start: Cpu,
    n: nat,
    from: nat,
    to: nat,
    r: Result<ExecutionRecord, ExecutionError>,
)
    requires
        c.starts_well(),
        c.chunked(),
        from < to <= c.total(),
        undisturbed(c.setup, c.start, (to - 1) as nat),
        c.is_part(trace, from, to),
        c.in_line(from),
        c.whole(from).fork is None,
        c.steady(from, to),
        splicing::starts_with(start, trace),
        tracing::traces(
            start,
            c.setup.program,
            c.setup.max_syscall_cycles,
            trace.clk_at_end(),
            n,
            r,
        ),
    ensures
        n == to - from,
        r matches Ok(record) && record.ledger() == part_events(c, from, to),
{
    reveal(Course::is_part);
    reveal(Course::steady);
    let gap = (to - from) as nat;
    let p = c.setup.program;
    let cycles = c.setup.max_syscall_cycles;
    let end = trace.clk_at_end();
    lemma_part_mirrors(c, trace, start, from, to, to);
    assert(start.steps(p, cycles, gap) is Some);
    assert(start.steps(p, cycles, gap)->Some_0.clk == end);
    if n > gap {
        assert(tracing::goes_on(start, p, cycles, end, (n - 1) as nat));
        assert(start.steps(p, cycles, gap) is Some);
        assert(false);
    }
    if r is Err {
        if n == gap {
            assert(tracing::goes_on(start, p, cycles, end, n));
            assert(start.steps(p, cycles, gap) is Some);
        } else {
            lemma_part_mirrors(c, trace, start, from, to, (from + n + 1) as nat);
            assert(start.steps(p, cycles, n + 1) is Some);
        }
        assert(false);
    }
    if n < gap {
        let at = from + n;
        lemma_part_mirrors(c, trace, start, from, to, at);
        assert(c.setup.after(c.start, at) is Some);
        assert(c.whole(at).clk < c.whole(to).clk);
        assert(false);
    }
    lemma_same_events(c, trace, start, from, to, n);
}

/// A shard stays a shard when more chunks follow.
pub proof fn lemma_shard_stays(
    c: Course,
    d: Course,
    rules: Walk,
    empty: Shape,
    from: nat,
    to: nat,
    done: bool,
)
    requires
        c.start == d.start,
        c.setup == d.setup,
        c.cuts.is_prefix_of(d.cuts),
        c.total() <= d.total(),
        c.is_shard(rules, empty, from, to, done),
    ensures
        d.is_shard(rules, empty, from, to, done),
{
    reveal(Course::uncut);
    reveal(Course::is_shard);
    assert forall|k: nat| from < k < to implies #[trigger] d.uncut(rules, empty, from, k) by {
        assert(c.uncut(rules, empty, from, k));
        assert(d.whole(k) == c.whole(k));
        assert(d.whole(from) == c.whole(from));
        if c.cuts.contains(k) {
            let j = c.cuts.index_of(k);
            assert(d.cuts[j] == c.cuts[j]);
        }
    }
    assert(d.whole(to) == c.whole(to));
    assert(d.whole(from) == c.whole(from));
}

/// Later cuts come after earlier ones.
pub proof fn lemma_cuts_grow(c: Course, i: int, j: int)
    requires
        c.chunked(),
        0 <= i <= j < c.cuts.len(),
    ensures
        c.cuts[i] <= c.cuts[j],
    decreases j - i,
{
    if i < j {
        lemma_cuts_grow(c, i, j - 1);
        assert(c.cuts[j - 1] < c.cuts[j]);
    }
}

/// No shard starts inside an unconstrained block, and no such block runs the clock past the end of
/// its shard.
pub open spec fn sound(c: Course, points: Seq<nat>) -> bool {
    forall|i: int| 0 <= i < points.len() - 1 ==> #[trigger] sound_at(c, points, i)
}

/// The same of one shard.
pub open spec fn sound_at(c: Course, points: Seq<nat>, i: int) -> bool {
    c.whole(points[i]).fork is None && c.steady(points[i], points[i + 1])
}

/// The run is cut into shards at the given points; only the last one may end with the program.
pub open spec fn cut_at(c: Course, rules: Walk, empty: Shape, points: Seq<nat>, done: bool) -> bool {
    forall|i: int, j: int|
        0 <= i && i + 1 == j && j < points.len() ==> c.is_shard(
            rules,
            empty,
            #[trigger] points[i],
            #[trigger] points[j],
            done && j == points.len() - 1,
        )
}

/// Each list of events is that of the part of the run between two points, unless that part starts
/// inside an unconstrained block or such a block runs the clock past its end.
pub open spec fn recorded(c: Course, points: Seq<nat>, events: Seq<Ledger>) -> bool {
    forall|i: int, j: int|
        0 <= i && i + 1 == j && j < points.len() && c.whole(#[trigger] points[i]).fork is None
            && c.steady(points[i], #[trigger] points[j]) ==> events[i] == part_events(
            c,
            points[i],
            points[j],
        )
}

/// Points that lie inside the run, each behind the one before.
pub open spec fn in_order(c: Course, points: Seq<nat>) -> bool {
    &&& forall|i: int| 0 <= i < points.len() ==> #[trigger] points[i] <= c.total()
    &&& forall|i: int, j: int|
        0 <= i < j < points.len() ==> #[trigger] points[i] < #[trigger] points[j]
}

/// The points at which a run is cut are in order.
pub proof fn lemma_cuts_are_in_order(
    c: Course,
    rules: Walk,
    empty: Shape,
    points: Seq<nat>,
    done: bool,
)
    requires
        cut_at(c, rules, empty, points, done),
        points.len() >= 1,
        points[0] <= c.total(),
    ensures
        in_order(c, points),
    decreases points.len(),
{
    if points.len() >= 2 {
        let front = points.drop_last();
        let k = points.len() - 2;
        assert forall|i: int, j: int| 0 <= i && i + 1 == j && j < front.len() implies c.is_shard(
            rules,
            empty,
            #[trigger] front[i],
            #[trigger] front[j],
            false && j == front.len() - 1,
        ) by {
            assert(points[i] == front[i]);
            assert(points[j] == front[j]);
        }
        lemma_cuts_are_in_order(c, rules, empty, front, false);
        assert(c.is_shard(rules, empty, points[k], points[k + 1], done));
        lemma_shard_bounds(c, rules, empty, points[k], points[k + 1], done);
        assert forall|i: int| 0 <= i < points.len() implies #[trigger] points[i] <= c.total() by {
            if i <= k {
                assert(front[i] == points[i]);
            }
        }
        assert forall|i: int, j: int| 0 <= i < j < points.len() implies #[trigger] points[i]
            < #[trigger] points[j] by {
            assert(front[i] == points[i]);
            assert(front[k] == points[k]);
            if j <= k {
                assert(front[j] == points[j]);
            } else if i < k {
                assert(front[i] < front[k]);
            }
        }
    }
}

/// A run that is cut further is cut at all the points.
pub proof fn lemma_cut_further(
    c: Course,
    d: Course,
    rules: Walk,
    empty: Shape,
    points: Seq<nat>,
    more: Seq<nat>,
    done: bool,
)
    requires
        c.start == d.start,
        c.setup == d.setup,
        c.cuts.is_prefix_of(d.cuts),
        c.total() <= d.total(),
        points.len() >= 1,
        more.len() >= 1,
        more[0] == points.last(),
        cut_at(c, rules, empty, points, false),
        cut_at(d, rules, empty, more, done),
    ensures
        cut_at(d, rules, empty, points + more.skip(1), done && more.len() >= 2),
{
    let all = points + more.skip(1);
    let last = done && more.len() >= 2;
    assert forall|i: int, j: int| 0 <= i && i + 1 == j && j < all.len() implies d.is_shard(
        rules,
        empty,
        #[trigger] all[i],
        #[trigger] all[j],
        last && j == all.len() - 1,
    ) by {
        if j < points.len() {
            assert(all[i] == points[i]);
            assert(all[j] == points[j]);
            assert(c.is_shard(rules, empty, points[i], points[j], false));
            lemma_shard_stays(c, d, rules, empty, points[i], points[j], false);
        } else {
            let k = i - (points.len() - 1);
            assert(all[i] == more[k]);
            assert(all[j] == more[k + 1]);
            assert(d.is_shard(rules, empty, more[k], more[k + 1], done && k + 1 == more.len() - 1));
        }
    }
}

/// One more shard is recorded.
pub proof fn lemma_one_more_record(
    c: Course,
    d: Course,
    points: Seq<nat>,
    events: Seq<Ledger>,
    to: nat,
    more: Ledger,
)
    requires
        c.start == d.start,
        c.setup == d.setup,
        points.len() >= 1,
        points.len() == events.len() + 1,
        recorded(c, points, events),
        d.whole(points.last()).fork is None && d.steady(points.last(), to) ==> more == part_events(
            d,
            points.last(),
            to,
        ),
    ensures
        recorded(d, points.push(to), events.push(more)),
{
    reveal(Course::steady);
    let all = points.push(to);
    let list = events.push(more);
    assert forall|i: int, j: int|
        0 <= i && i + 1 == j && j < all.len() && d.whole(#[trigger] all[i]).fork is None && d.steady(
            all[i],
            #[trigger] all[j],
        ) implies list[i] == part_events(d, all[i], all[j]) by {
        if j < points.len() {
            assert(all[i] == points[i]);
            assert(all[j] == points[j]);
            assert(c.whole(points[i]).fork is None);
            assert forall|k: nat| points[i] < k < points[j] implies (#[trigger] c.whole(k)).clk
                < c.whole(points[j]).clk by {
                assert(d.whole(k).clk < d.whole(points[j]).clk);
            }
            assert(c.steady(points[i], points[j]));
            assert(part_events(d, all[i], all[j]) == part_events(c, points[i], points[j]));
        }
    }
}

/// A shard is not empty and lies inside the run.
pub proof fn lemma_shard_bounds(
    c: Course,
    rules: Walk,
    empty: Shape,
    from: nat,
    to: nat,
    done: bool,
)
    requires
        c.is_shard(rules, empty, from, to, done),
    ensures
        from < to <= c.total(),
        done == c.whole(to).done(c.setup.program),
{
    reveal(Course::is_shard);
}

/// A part of the run is one wherever the open shard starts.
pub proof fn lemma_same_part<T: MinimalTrace>(c: Course, d: Course, trace: &T, from: nat, to: nat)
    requires
        d == (Course { shard: d.shard, ..c }),
        c.is_part(trace, from, to),
    ensures
        d.is_part(trace, from, to),
{
    reveal(Course::is_part);
}

/// A longer course retires at least as much.
pub proof fn lemma_longer_course(c: Course, d: Course)
    requires
        c.cuts.len() >= 1,
        d.chunked(),
        c.cuts.is_prefix_of(d.cuts),
    ensures
        c.total() <= d.total(),
{
    let j = c.cuts.len() - 1;
    assert(d.cuts[j] == c.cuts[j]);
    lemma_cuts_grow(d, j, d.cuts.len() - 1);
}

/// Shards that are sound as a whole are sound at their end.
pub proof fn lemma_sound_tail(c: Course, points: Seq<nat>, more: Seq<nat>)
    requires
        points.len() >= 1,
        more.len() >= 1,
        more[0] == points.last(),
        sound(c, points + more.skip(1)),
    ensures
        sound(c, more),
{
    let all = points + more.skip(1);
    assert forall|i: int| 0 <= i < more.len() - 1 implies #[trigger] sound_at(c, more, i) by {
        let k = points.len() - 1 + i;
        assert(all[k] == more[i]);
        assert(all[k + 1] == more[i + 1]);
        assert(sound_at(c, all, k));
    }
}

} // verus!
