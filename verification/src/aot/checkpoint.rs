//! The code that runs a program shard by shard, and the decision where a shard ends.
use vstd::prelude::*;

use crate::air::{MipsAirId, NUM_AIRS};
use crate::aot::common::{
    REG_CALLER, REG_CLK, REG_DIVISOR, REG_EXECUTOR_PTR, REG_FIRST_ARG, REG_HI,
    REG_HI_64, REG_LO_64,
};
use crate::aot::error::AotError;
use crate::aot::host;
use crate::aot::host::{join, render, Label, Line, Op, Operand, Reg};
use crate::aot::pure;
use crate::aot::AotCompiler;
use crate::consts::DEFAULT_CLK_INC;
use crate::cost;
use crate::cost::{
    estimate_mips_event_counts, estimate_mips_lde_size, pad_mips_event_counts, AirCosts,
    AirCounts, EventInputs,
};
use crate::errors::ExecutionError;
use crate::events::PrecompileEvents;
use crate::state::ExecutionState;

verus! {

impl AotCompiler {
    /// What comes before the code of an instruction: the run is suspended behind the program, at the end of the shard, and where the executor says so; then the counters advance.
    pub open spec fn metered_head_listing(&self, pc: u32) -> Seq<Line> {
        let code = Seq::<Line>::empty();
        let most_clk: u32 = (self.shard_size - self.max_syscall_cycles) as u32;
        let code = code.push(Line::Here(Label::Pc(pc)));
        let code = code.push(Line::Op2(4, Op::Cmp, self.next_pc(), Operand::I(self.end_pc() as u64)));
        let code = code.push(Line::Op1(4, Op::Jae, Operand::To(Label::RunEnd)));
        let code = code.push(Line::Op2(4, Op::Cmp, Operand::R(REG_CLK), Operand::I(most_clk as u64)));
        let code = code.push(Line::Op1(4, Op::Jae, Operand::To(Label::RunEnd)));
        let code = code.push(Line::Note("global_clk % shape_check_frequency"));
        let code = code.push(Line::Op2(4, Op::Mov, Operand::R(REG_HI), Operand::I(0)));
        let code = code.push(Line::Op2(4, Op::Mov, Operand::R(REG_LO_64), self.global_clk()));
        let code = code.push(Line::Op2(4, Op::Mov, Operand::R(REG_DIVISOR), Operand::I(self.shape_check_frequency)));
        let code = code.push(Line::Op1(4, Op::Div, Operand::R(REG_DIVISOR)));
        let code = code.push(Line::Op2(4, Op::Test, Operand::R(REG_HI_64), Operand::R(REG_HI_64)));
        let code = code.push(Line::Op1(4, Op::Jnz, Operand::To(Label::Counters(pc))));
        let code = code + self.sync_reg_to_clk_listing();
        let code = code.push(Line::Note("call inc_shard_if_need()"));
        let code = code + Self::before_call_listing();
        let code = code.push(Line::Op2(4, Op::Mov, Operand::R(REG_FIRST_ARG), Operand::R(REG_EXECUTOR_PTR)));
        let code = code.push(Line::Op2(4, Op::Mov, Operand::R(REG_CALLER), Operand::H(self.host.inc_shard_if_need)));
        let code = code.push(Line::Op1(4, Op::Call, Operand::R(REG_CALLER)));
        let code = code.push(Line::Op2(4, Op::Test, Operand::R(Reg::Al), Operand::R(Reg::Al)));
        let code = code + Self::after_call_listing();
        let code = code.push(Line::Op1(4, Op::Jnz, Operand::To(Label::RunEnd)));
        let code = code.push(Line::Here(Label::Counters(pc)));
        let code = code.push(Line::Op2(4, Op::Mov, self.next_pc(), Operand::I(pc.wrapping_add(4) as u64)));
        let code = code.push(Line::Op2(4, Op::Add, Operand::R(REG_CLK), Operand::I(5)));
        let code = code.push(Line::Op1(4, Op::Inc, self.global_clk()));
        code
    }

    /// What comes before the code of an instruction: the run is suspended behind the program, at the end of the shard, and where the executor says so; then the counters advance.
    pub(crate) fn metered_head_code(&self, pc: u32) -> (r: Vec<Line>)
        requires
            self.program.wf(),
            self.max_syscall_cycles <= self.shard_size,
        ensures
            r@ == self.metered_head_listing(pc),
    {
        let mut code: Vec<Line> = Vec::new();
        let most_clk: u32 = self.shard_size - self.max_syscall_cycles;
        code.push(Line::Here(Label::Pc(pc)));
        code.push(Line::Op2(4, Op::Cmp, self.next_pc_operand(), Operand::I(self.program.pc(self.program.instructions.len()) as u64)));
        code.push(Line::Op1(4, Op::Jae, Operand::To(Label::RunEnd)));
        code.push(Line::Op2(4, Op::Cmp, Operand::R(REG_CLK), Operand::I(most_clk as u64)));
        code.push(Line::Op1(4, Op::Jae, Operand::To(Label::RunEnd)));
        code.push(Line::Note("global_clk % shape_check_frequency"));
        code.push(Line::Op2(4, Op::Mov, Operand::R(REG_HI), Operand::I(0)));
        code.push(Line::Op2(4, Op::Mov, Operand::R(REG_LO_64), self.global_clk_operand()));
        code.push(Line::Op2(4, Op::Mov, Operand::R(REG_DIVISOR), Operand::I(self.shape_check_frequency)));
        code.push(Line::Op1(4, Op::Div, Operand::R(REG_DIVISOR)));
        code.push(Line::Op2(4, Op::Test, Operand::R(REG_HI_64), Operand::R(REG_HI_64)));
        code.push(Line::Op1(4, Op::Jnz, Operand::To(Label::Counters(pc))));
        join(&mut code, self.sync_reg_to_clk_code());
        code.push(Line::Note("call inc_shard_if_need()"));
        join(&mut code, Self::before_call_code());
        code.push(Line::Op2(4, Op::Mov, Operand::R(REG_FIRST_ARG), Operand::R(REG_EXECUTOR_PTR)));
        code.push(Line::Op2(4, Op::Mov, Operand::R(REG_CALLER), Operand::H(self.host.inc_shard_if_need)));
        code.push(Line::Op1(4, Op::Call, Operand::R(REG_CALLER)));
        code.push(Line::Op2(4, Op::Test, Operand::R(Reg::Al), Operand::R(Reg::Al)));
        join(&mut code, Self::after_call_code());
        code.push(Line::Op1(4, Op::Jnz, Operand::To(Label::RunEnd)));
        code.push(Line::Here(Label::Counters(pc)));
        code.push(Line::Op2(4, Op::Mov, self.next_pc_operand(), Operand::I(pc.wrapping_add(4) as u64)));
        code.push(Line::Op2(4, Op::Add, Operand::R(REG_CLK), Operand::I(5)));
        code.push(Line::Op1(4, Op::Inc, self.global_clk_operand()));
        code
    }

    /// What comes before the code of an instruction in a delay slot.
    pub open spec fn metered_slot_head_listing(&self, pc: u32) -> Seq<Line> {
        let code = Seq::<Line>::empty();
        let code = code.push(Line::Here(Label::Pc(pc)));
        let code = code.push(Line::Op2(4, Op::Mov, self.next_pc(), Operand::I(pc.wrapping_add(4) as u64)));
        let code = code.push(Line::Op2(4, Op::Add, Operand::R(REG_CLK), Operand::I(5)));
        let code = code.push(Line::Op1(4, Op::Inc, self.global_clk()));
        code
    }

    /// What comes before the code of an instruction in a delay slot.
    pub(crate) fn metered_slot_head_code(&self, pc: u32) -> (r: Vec<Line>)
        ensures
            r@ == self.metered_slot_head_listing(pc),
    {
        let mut code: Vec<Line> = Vec::new();
        code.push(Line::Here(Label::Pc(pc)));
        code.push(Line::Op2(4, Op::Mov, self.next_pc_operand(), Operand::I(pc.wrapping_add(4) as u64)));
        code.push(Line::Op2(4, Op::Add, Operand::R(REG_CLK), Operand::I(5)));
        code.push(Line::Op1(4, Op::Inc, self.global_clk_operand()));
        code
    }

    /// The end of the run: the registers and the counters go back to the executor.
    pub open spec fn metered_exit_listing(&self) -> Seq<Line> {
        let code = Seq::<Line>::empty();
        let code = code.push(Line::Here(Label::RunEnd));
        let code = code.push(Line::Note("save_xmm_regs"));
        let code = code + Self::save_xmm_regs_listing();
        let code = code + self.sync_reg_to_clk_listing();
        let code = code.push(Line::Note("call inc_shard_if_need()"));
        let code = code.push(Line::Op2(4, Op::Mov, Operand::R(REG_FIRST_ARG), Operand::R(REG_EXECUTOR_PTR)));
        let code = code.push(Line::Op2(4, Op::Mov, Operand::R(REG_CALLER), Operand::H(self.host.inc_shard_if_need)));
        let code = code.push(Line::Op1(4, Op::Call, Operand::R(REG_CALLER)));
        let code = code.push(Line::Note("pop_external_registers"));
        let code = code + Self::pop_external_registers_listing();
        let code = code.push(Line::Op0(4, Op::Ret));
        code
    }

    /// The end of the run: the registers and the counters go back to the executor.
    fn metered_exit_code(&self) -> (r: Vec<Line>)
        ensures
            r@ == self.metered_exit_listing(),
    {
        let mut code: Vec<Line> = Vec::new();
        code.push(Line::Here(Label::RunEnd));
        code.push(Line::Note("save_xmm_regs"));
        join(&mut code, Self::save_xmm_regs_code());
        join(&mut code, self.sync_reg_to_clk_code());
        code.push(Line::Note("call inc_shard_if_need()"));
        code.push(Line::Op2(4, Op::Mov, Operand::R(REG_FIRST_ARG), Operand::R(REG_EXECUTOR_PTR)));
        code.push(Line::Op2(4, Op::Mov, Operand::R(REG_CALLER), Operand::H(self.host.inc_shard_if_need)));
        code.push(Line::Op1(4, Op::Call, Operand::R(REG_CALLER)));
        code.push(Line::Note("pop_external_registers"));
        join(&mut code, Self::pop_external_registers_code());
        code.push(Line::Op0(4, Op::Ret));
        code
    }

    /// The counters that a shard starts with.
    pub open spec fn metered_counters_listing(&self) -> Seq<Line> {
        let code = Seq::<Line>::empty();
        let code = code.push(Line::Note("state.clk = 0"));
        let code = code.push(Line::Op2(3, Op::Mov, Operand::R(REG_CLK), Operand::I(0)));
        let code = code + self.sync_shard_to_reg_listing();
        code
    }

    /// The counters that a shard starts with.
    fn metered_counters_code(&self) -> (r: Vec<Line>)
        ensures
            r@ == self.metered_counters_listing(),
    {
        let mut code: Vec<Line> = Vec::new();
        code.push(Line::Note("state.clk = 0"));
        code.push(Line::Op2(3, Op::Mov, Operand::R(REG_CLK), Operand::I(0)));
        join(&mut code, self.sync_shard_to_reg_code());
        code
    }

    /// The code that runs one shard of the program.
    pub open spec fn metered_listing(&self) -> Seq<Line> {
        self.entry_listing() + self.metered_counters_listing() + self.dispatch_listing()
            + pure::low_labels(self.program.pc_base as int / 4) + self.body(true, 0)
            + self.metered_exit_listing() + self.table()
    }

    /// The assembly that runs one shard of the program.
    pub fn create_metered_asm(&self) -> (r: Result<String, AotError>)
        requires
            self.compiles(),
            self.max_syscall_cycles <= self.shard_size,
        ensures
            match r {
                Ok(text) => self.supports_all() && text@ == host::listing_text(
                    self.metered_listing(),
                ),
                Err(e) => !self.supports_all() && e is NotSupported,
            },
    {
        if !self.can_support_all() {
            return Err(AotError::NotSupported);
        }
        let mut code = self.entry_code();
        join(&mut code, self.metered_counters_code());
        join(&mut code, self.dispatch_code());
        join(&mut code, self.labels_below_code());
        join(&mut code, self.body_code(true));
        join(&mut code, self.metered_exit_code());
        join(&mut code, self.table_code());
        Ok(render(&code))
    }
}

/// What is counted of the shard that is running.
pub struct LocalExecutionCounts {
    /// How often each opcode retired.
    pub event_counts: Vec<u64>,
    /// The number of words of memory touched.
    pub local_mem: u64,
    /// The number of syscalls sent to precompiled operations.
    pub syscalls_sent: u64,
}

impl LocalExecutionCounts {
    /// The counts that events are estimated from. Compiled code does not tell the special forms
    /// of instructions apart.
    pub open spec fn inputs(&self) -> EventInputs {
        EventInputs {
            touched_addresses: self.local_mem,
            syscalls_sent: self.syscalls_sent,
            addi_events: 0,
            add_noop_events: 0,
            add_x0_events: 0,
            sub_x0_events: 0,
            slt_i_events: 0,
            sltu_i_events: 0,
            slt_x0_events: 0,
            sltu_x0_events: 0,
            bitwise_x0_events: 0,
            shift_right_x0_events: 0,
            lui_events: 0,
            shift_left_x0_events: 0,
            mul_x0_events: 0,
            movcond_x0_events: 0,
            divrem_x0_events: 0,
            cloclz_x0_events: 0,
            ins_x0_events: 0,
            ext_x0_events: 0,
            sext_x0_events: 0,
            load_x0_events: 0,
            opcode_counts: self.event_counts@,
        }
    }

    /// The estimated number of events of a chip at a clock.
    pub open spec fn estimated(&self, clk: u32, id: MipsAirId) -> int {
        if id is Cpu {
            clk as int / DEFAULT_CLK_INC as int
        } else {
            self.inputs().count(id)
        }
    }

    /// Estimates the number of events of each chip.
    pub fn estimate(&self, clk: u32) -> (r: AirCounts)
        requires
            self.inputs().sensible(),
        ensures
            r.wf(),
            forall|id: MipsAirId| #[trigger] r.at(id) == self.estimated(clk, id),
    {
        let mut counts = estimate_mips_event_counts(
            self.local_mem,
            self.syscalls_sent,
            0,
            0,
            0,
            0,
            0,
            0,
            0,
            0,
            0,
            0,
            0,
            0,
            0,
            0,
            0,
            0,
            0,
            0,
            0,
            0,
            &self.event_counts,
        );
        counts.set(MipsAirId::Cpu, (clk / DEFAULT_CLK_INC) as u64);
        counts
    }
}

/// What ends a shard.
pub struct ShardLimits {
    /// The maximum number of instructions.
    pub max_cycles: Option<u64>,
    /// The maximum number of cycles for a syscall.
    pub max_syscall_cycles: u32,
    /// The maximum clock of a shard.
    pub shard_size: u32,
    /// How often the size of the shard is estimated, in instructions.
    pub shape_check_frequency: u64,
    /// Whether the estimated size is held against `lde_size_threshold`.
    pub lde_size_check: bool,
    /// The maximum estimated size.
    pub lde_size_threshold: u64,
    /// The shapes that a shard may have: the logarithm of the height of each chip.
    pub maximal_shapes: Option<Vec<AirCounts>>,
    /// The cost of a row of each chip.
    pub costs: AirCosts,
    /// The number of instructions of the program.
    pub program_size: u64,
}

/// Whether counts are the estimated ones, padded for the worst case until the next estimate.
pub open spec fn pads(
    padded: AirCounts,
    counts: LocalExecutionCounts,
    clk: u32,
    num_cycles: u64,
) -> bool {
    &&& padded.wf()
    &&& forall|id: MipsAirId| #[trigger]
        padded.at(id) == counts.estimated(clk, id) + cost::growth(id, num_cycles)
}

/// Whether a shape has room for a shard: no chip is higher than the shape allows, and none that
/// is in use comes too close.
pub open spec fn has_room(
    shape: AirCounts,
    counts: LocalExecutionCounts,
    clk: u32,
    frequency: u64,
) -> bool {
    &&& clk <= (1u32 << shape.at(MipsAirId::Cpu)) << 2u32
    &&& forall|id: MipsAirId|
        #![trigger shape.at(id)]
        id.is_core() && id !is Cpu ==> chip_has_room(
            shape.at(id),
            counts.estimated(clk, id),
            frequency,
        )
}

/// Whether a chip has room under a logarithmic height.
pub open spec fn chip_has_room(log_height: u64, count: int, frequency: u64) -> bool {
    &&& count <= (1u64 << log_height)
    &&& count != 0 ==> (1u64 << log_height) - count >= 32 * frequency
}

/// Whether some shape has room for a shard.
pub open spec fn some_shape_has_room(
    shapes: Seq<AirCounts>,
    counts: LocalExecutionCounts,
    clk: u32,
    frequency: u64,
) -> bool {
    exists|i: int|
        0 <= i < shapes.len() && has_room(#[trigger] shapes[i], counts, clk, frequency)
}

/// Counts that agree cost the same.
proof fn lemma_same_cells(a: &AirCounts, b: &AirCounts, costs: &AirCosts, n: int)
    requires
        forall|id: MipsAirId| #[trigger] a.at(id) == b.at(id),
    ensures
        cost::projected_cells(a, costs, n) == cost::projected_cells(b, costs, n),
    decreases n,
{
    if n > 0 {
        lemma_same_cells(a, b, costs, n - 1);
        assert(a.at(MipsAirId::at((n - 1) as usize)) == b.at(MipsAirId::at((n - 1) as usize)));
    }
}

impl ShardLimits {
    /// Whether the size of the shard is due to be estimated.
    pub open spec fn due(&self, global_clk: u64) -> bool {
        if self.shape_check_frequency == 0 {
            global_clk == 0
        } else {
            global_clk % self.shape_check_frequency == 0
        }
    }

    /// The limits can be held against a shard: the estimates do not overflow, and the shapes are
    /// logarithms of heights.
    pub open spec fn applicable(
        &self,
        counts: LocalExecutionCounts,
        clk: u32,
        events: PrecompileEvents,
    ) -> bool {
        &&& counts.inputs().sensible()
        &&& self.lde_size_check ==> {
            &&& self.costs.complete()
            &&& forall|id: MipsAirId| #[trigger]
                counts.estimated(clk, id) + cost::growth(id, self.shape_check_frequency)
                    <= u64::MAX
            &&& forall|padded: AirCounts| #[trigger]
                pads(padded, counts, clk, self.shape_check_frequency) ==> {
                    &&& cost::paddings_fit(&padded, events)
                    &&& 8 * cost::shard_cells(&padded, &self.costs, self.program_size, events)
                        <= u64::MAX
                }
        }
        &&& (!self.lde_size_check && self.maximal_shapes is Some) ==> {
            &&& 32 * self.shape_check_frequency <= u64::MAX
            &&& forall|i: int|
                0 <= i < self.maximal_shapes->Some_0@.len() ==> {
                    let shape = #[trigger] self.maximal_shapes->Some_0@[i];
                    &&& shape.wf()
                    &&& shape.at(MipsAirId::Cpu) < 32
                    &&& forall|id: MipsAirId| #[trigger] shape.at(id) < 64
                }
        }
    }

    /// Whether the estimated size is over the threshold.
    pub open spec fn too_large(
        &self,
        counts: LocalExecutionCounts,
        clk: u32,
        events: PrecompileEvents,
    ) -> bool {
        exists|padded: AirCounts| #[trigger]
            pads(padded, counts, clk, self.shape_check_frequency) && 8 * cost::shard_cells(
                &padded,
                &self.costs,
                self.program_size,
                events,
            ) > self.lde_size_threshold
    }

    /// Whether the shard has outgrown the limits on its size.
    pub open spec fn outgrown(
        &self,
        counts: LocalExecutionCounts,
        clk: u32,
        events: PrecompileEvents,
    ) -> bool {
        if self.lde_size_check {
            self.too_large(counts, clk, events)
        } else {
            match self.maximal_shapes {
                Some(shapes) => !some_shape_has_room(
                    shapes@,
                    counts,
                    clk,
                    self.shape_check_frequency,
                ),
                None => false,
            }
        }
    }

    /// Whether the shard has to end: there are not enough cycles left for another instruction, or
    /// its estimated size is over a limit.
    pub open spec fn ends(
        &self,
        state: ExecutionState,
        counts: LocalExecutionCounts,
        events: PrecompileEvents,
    ) -> bool {
        ||| self.max_syscall_cycles + state.clk >= self.shard_size
        ||| self.due(state.global_clk) && self.outgrown(counts, state.clk, events)
    }

    /// Whether the shard is held against shapes and none of them has room for it.
    pub open spec fn shapeless(&self, counts: LocalExecutionCounts, clk: u32) -> bool {
        &&& !self.lde_size_check
        &&& self.maximal_shapes matches Some(shapes) && !some_shape_has_room(
            shapes@,
            counts,
            clk,
            self.shape_check_frequency,
        )
    }

    /// Whether the program has run for too long.
    pub open spec fn exhausted(&self, global_clk: u64) -> bool {
        self.max_cycles is Some && global_clk >= self.max_cycles->Some_0
    }

    /// Whether the estimated size is over the threshold.
    fn is_too_large(&self, counts: &LocalExecutionCounts, clk: u32, events: &PrecompileEvents) -> (r:
        bool)
        requires
            self.lde_size_check,
            self.applicable(*counts, clk, *events),
        ensures
            r == self.too_large(*counts, clk, *events),
    {
        let estimated = counts.estimate(clk);
        proof {
            assert forall|id: MipsAirId| #[trigger]
                estimated.at(id) + cost::growth(id, self.shape_check_frequency) <= u64::MAX by {
                assert(counts.estimated(clk, id) + cost::growth(id, self.shape_check_frequency)
                    <= u64::MAX);
            }
        }
        let padded = pad_mips_event_counts(estimated, self.shape_check_frequency);
        assert(pads(padded, *counts, clk, self.shape_check_frequency));
        let size: u64 = estimate_mips_lde_size(&padded, &self.costs, self.program_size, events);
        proof {
            assert forall|other: AirCounts| #[trigger]
                pads(other, *counts, clk, self.shape_check_frequency) implies 8
                * cost::shard_cells(&other, &self.costs, self.program_size, *events) == size by {
                assert forall|id: MipsAirId| #[trigger] other.at(id) == padded.at(id) by {}
                lemma_same_cells(&other, &padded, &self.costs, NUM_AIRS as int);
            }
        }
        size > self.lde_size_threshold
    }

    /// Whether some shape has room for the shard.
    fn is_some_shape_roomy(
        &self,
        shapes: &Vec<AirCounts>,
        counts: &LocalExecutionCounts,
        estimated: &AirCounts,
        clk: u32,
    ) -> (r: bool)
        requires
            estimated.wf(),
            forall|id: MipsAirId| #[trigger] estimated.at(id) == counts.estimated(clk, id),
            32 * self.shape_check_frequency <= u64::MAX,
            forall|i: int|
                0 <= i < shapes@.len() ==> {
                    let shape = #[trigger] shapes@[i];
                    &&& shape.wf()
                    &&& shape.at(MipsAirId::Cpu) < 32
                    &&& forall|id: MipsAirId| #[trigger] shape.at(id) < 64
                },
        ensures
            r == some_shape_has_room(shapes@, *counts, clk, self.shape_check_frequency),
    {
        let mut i: usize = 0;
        while i < shapes.len()
            invariant
                i <= shapes@.len(),
                estimated.wf(),
                forall|id: MipsAirId| #[trigger] estimated.at(id) == counts.estimated(clk, id),
                32 * self.shape_check_frequency <= u64::MAX,
                forall|i: int|
                    0 <= i < shapes@.len() ==> {
                        let shape = #[trigger] shapes@[i];
                        &&& shape.wf()
                        &&& shape.at(MipsAirId::Cpu) < 32
                        &&& forall|id: MipsAirId| #[trigger] shape.at(id) < 64
                    },
                forall|j: int|
                    0 <= j < i ==> !has_room(
                        #[trigger] shapes@[j],
                        *counts,
                        clk,
                        self.shape_check_frequency,
                    ),
            decreases shapes@.len() - i,
        {
            let shape = &shapes[i];
            if is_roomy(shape, estimated, clk, self.shape_check_frequency) {
                proof {
                    assert forall|id: MipsAirId|
                        #![trigger shapes@[i as int].at(id)]
                        id.is_core() && id !is Cpu implies chip_has_room(
                        shapes@[i as int].at(id),
                        counts.estimated(clk, id),
                        self.shape_check_frequency,
                    ) by {
                        assert(estimated.at(id) == counts.estimated(clk, id));
                    }
                    assert(has_room(shapes@[i as int], *counts, clk, self.shape_check_frequency));
                }
                return true;
            }
            proof {
                if has_room(shapes@[i as int], *counts, clk, self.shape_check_frequency) {
                    assert forall|id: MipsAirId|
                        #![trigger shapes@[i as int].at(id)]
                        id.is_core() && id !is Cpu implies chip_has_room(
                        shapes@[i as int].at(id),
                        estimated.at(id) as int,
                        self.shape_check_frequency,
                    ) by {
                        assert(estimated.at(id) == counts.estimated(clk, id));
                    }
                }
            }
            i = i + 1;
        }
        false
    }
}

/// Whether a shape has room for counts.
fn is_roomy(shape: &AirCounts, counts: &AirCounts, clk: u32, frequency: u64) -> (r: bool)
    requires
        shape.wf(),
        counts.wf(),
        shape.at(MipsAirId::Cpu) < 32,
        forall|id: MipsAirId| #[trigger] shape.at(id) < 64,
        32 * frequency <= u64::MAX,
    ensures
        r == (clk <= (1u32 << shape.at(MipsAirId::Cpu)) << 2u32 && forall|id: MipsAirId|
            #![trigger shape.at(id)]
            id.is_core() && id !is Cpu ==> chip_has_room(
                shape.at(id),
                counts.at(id) as int,
                frequency,
            )),
{
    let cpu: u64 = shape.get(MipsAirId::Cpu);
    if clk > (1u32 << cpu) << 2u32 {
        return false;
    }
    let mut i: usize = 0;
    while i < NUM_AIRS
        invariant
            i <= NUM_AIRS,
            shape.wf(),
            counts.wf(),
            32 * frequency <= u64::MAX,
            forall|id: MipsAirId| #[trigger] shape.at(id) < 64,
            forall|id: MipsAirId|
                #![trigger shape.at(id)]
                id.ordinal() < i && id.is_core() && id !is Cpu ==> chip_has_room(
                    shape.at(id),
                    counts.at(id) as int,
                    frequency,
                ),
        decreases NUM_AIRS - i,
    {
        let id: MipsAirId = MipsAirId::from_index(i);
        if id.is_core_air() && id != MipsAirId::Cpu {
            assert(shape.at(id) < 64);
            let threshold: u64 = 1u64 << shape.get(id);
            let count: u64 = counts.get(id);
            if count > threshold {
                assert(!chip_has_room(shape.at(id), counts.at(id) as int, frequency));
                return false;
            }
            if count != 0 && threshold - count < 32 * frequency {
                assert(!chip_has_room(shape.at(id), counts.at(id) as int, frequency));
                return false;
            }
        }
        proof {
            assert forall|other: MipsAirId|
                #![trigger shape.at(other)]
                other.ordinal() < i + 1 && other.is_core() && other !is Cpu implies chip_has_room(
                shape.at(other),
                counts.at(other) as int,
                frequency,
            ) by {
                if other.ordinal() == i {
                    crate::air::air_positions_are_distinct(other, id);
                }
            }
        }
        i = i + 1;
    }
    proof {
        assert forall|id: MipsAirId|
            #![trigger shape.at(id)]
            id.is_core() && id !is Cpu implies chip_has_room(
            shape.at(id),
            counts.at(id) as int,
            frequency,
        ) by {
            crate::air::air_positions_are_distinct(id, id);
        }
    }
    true
}

/// Ends the shard if it has to end: the clock of its end is kept, and the next shard starts with
/// a clock of zero. Says whether the shard ended. Where no shape has room for the shard, the record
/// keeps its estimated counts. A program that has run for too long ends with an error.
pub fn inc_shard_if_need(
    state: &mut ExecutionState,
    limits: &ShardLimits,
    counts: &LocalExecutionCounts,
    events: &PrecompileEvents,
    recorded_counts: &mut Option<AirCounts>,
) -> (r: Result<bool, ExecutionError>)
    requires
        old(state).current_shard < u32::MAX,
        limits.due(old(state).global_clk) ==> limits.applicable(*counts, old(state).clk, *events),
    ensures
        limits.exhausted(old(state).global_clk) ==> *final(state) == *old(state) && r == Err::<
            bool,
            ExecutionError,
        >(ExecutionError::ExceededCycleLimit(limits.max_cycles->Some_0)),
        if !limits.exhausted(old(state).global_clk) && limits.due(old(state).global_clk)
            && limits.shapeless(*counts, old(state).clk) {
            *final(recorded_counts) matches Some(kept) && kept.wf() && forall|id: MipsAirId| #[trigger]
                kept.at(id) == counts.estimated(old(state).clk, id)
        } else {
            *final(recorded_counts) == *old(recorded_counts)
        },
        !limits.exhausted(old(state).global_clk) ==> {
            let ends = limits.ends(*old(state), *counts, *events);
            &&& r == Ok::<bool, ExecutionError>(ends)
            &&& !ends ==> *final(state) == *old(state)
            &&& ends ==> final(state).records_clk@ == old(state).records_clk@.push(old(state).clk)
                && *final(state) == (ExecutionState {
                records_clk: final(state).records_clk,
                current_shard: (old(state).current_shard + 1) as u32,
                clk: 0,
                ..*old(state)
            })
        },
{
    if let Some(max_cycles) = limits.max_cycles {
        if state.global_clk >= max_cycles {
            return Err(ExecutionError::ExceededCycleLimit(max_cycles));
        }
    }
    let cpu_exit: bool = limits.max_syscall_cycles as u64 + state.clk as u64
        >= limits.shard_size as u64;
    let due: bool = if limits.shape_check_frequency == 0 {
        state.global_clk == 0
    } else {
        state.global_clk % limits.shape_check_frequency == 0
    };
    let mut shape_match_found: bool = true;
    if due {
        if limits.lde_size_check {
            if limits.is_too_large(counts, state.clk, events) {
                shape_match_found = false;
            }
        } else if let Some(maximal_shapes) = &limits.maximal_shapes {
            let estimated = counts.estimate(state.clk);
            shape_match_found =
            limits.is_some_shape_roomy(maximal_shapes, counts, &estimated, state.clk);
            if !shape_match_found {
                *recorded_counts = Some(estimated);
            }
        }
    }
    if cpu_exit || !shape_match_found {
        state.records_clk.push(state.clk);
        state.current_shard = state.current_shard + 1;
        state.clk = 0;
        return Ok(true);
    }
    Ok(false)
}

/// A shard that goes on has room for the longest instruction: its cycles end inside the shard.
pub proof fn a_shard_that_goes_on_has_room(
    limits: &ShardLimits,
    state: ExecutionState,
    counts: LocalExecutionCounts,
    events: PrecompileEvents,
)
    requires
        !limits.ends(state, counts, events),
    ensures
        state.clk + limits.max_syscall_cycles < limits.shard_size,
        limits.due(state.global_clk) && !limits.lde_size_check && limits.maximal_shapes
            is Some ==> exists|i: int|
            0 <= i < limits.maximal_shapes->Some_0@.len() && has_room(
                #[trigger] limits.maximal_shapes->Some_0@[i],
                counts,
                state.clk,
                limits.shape_check_frequency,
            ),
{
}

/// Where a shape has room for a shard, every chip in use can grow by 32 rows for each cycle until the
/// next estimate and is still no higher than the shape allows.
pub proof fn a_roomy_shape_holds_until_the_next_estimate(
    shape: AirCounts,
    counts: LocalExecutionCounts,
    clk: u32,
    frequency: u64,
    id: MipsAirId,
)
    requires
        has_room(shape, counts, clk, frequency),
        id.is_core(),
    ensures
        counts.estimated(clk, id) <= (1u64 << shape.at(id)),
        counts.estimated(clk, id) != 0 ==> counts.estimated(clk, id) + 32 * frequency <= (1u64
            << shape.at(id)),
{
    assert(chip_has_room(shape.at(id), counts.estimated(clk, id), frequency));
}

/// The estimated size of a shard is that of its padded counts, whichever list of counts holds them:
/// it is over the threshold exactly if eight times the cells of those counts are.
pub proof fn the_size_is_that_of_the_padded_counts(
    limits: &ShardLimits,
    padded: AirCounts,
    counts: LocalExecutionCounts,
    clk: u32,
    events: PrecompileEvents,
)
    requires
        pads(padded, counts, clk, limits.shape_check_frequency),
    ensures
        limits.too_large(counts, clk, events) <==> 8 * cost::shard_cells(
            &padded,
            &limits.costs,
            limits.program_size,
            events,
        ) > limits.lde_size_threshold,
{
    if limits.too_large(counts, clk, events) {
        let other = choose|other: AirCounts| #[trigger]
            pads(other, counts, clk, limits.shape_check_frequency) && 8 * cost::shard_cells(
                &other,
                &limits.costs,
                limits.program_size,
                events,
            ) > limits.lde_size_threshold;
        assert forall|id: MipsAirId| #[trigger] padded.at(id) == other.at(id) by {
            assert(other.at(id) == counts.estimated(clk, id) + cost::growth(
                id,
                limits.shape_check_frequency,
            ));
        }
        lemma_same_cells(&padded, &other, &limits.costs, crate::air::NUM_AIRS as int);
    }
}

/// Estimates come at regular distances: once one is due, the next is due after as many instructions
/// as the frequency says and not before.
pub proof fn estimates_come_at_regular_distances(limits: &ShardLimits, global_clk: u64, later: u64)
    requires
        limits.shape_check_frequency > 0,
        limits.due(global_clk),
        global_clk < later,
        later - global_clk <= limits.shape_check_frequency,
    ensures
        limits.due(later) <==> later - global_clk == limits.shape_check_frequency,
{
    let f = limits.shape_check_frequency as int;
    let q = global_clk as int / f;
    let d = later - global_clk;
    assert(global_clk == q * f) by (nonlinear_arith)
        requires
            f > 0,
            q == global_clk as int / f,
            global_clk as int % f == 0,
    ;
    if d == f {
        vstd::arithmetic::div_mod::lemma_mod_multiples_basic(q + 1, f);
        assert(later == (q + 1) * f) by (nonlinear_arith)
            requires
                later == global_clk + d,
                global_clk == q * f,
                d == f,
        ;
    } else {
        vstd::arithmetic::div_mod::lemma_fundamental_div_mod_converse(later as int, f, q, d);
    }
}

/// A program that has run for too long stays so, and one that has not stops at the limit exactly.
pub proof fn the_limit_on_cycles_is_sharp(limits: &ShardLimits, global_clk: u64, later: u64)
    requires
        global_clk <= later,
    ensures
        limits.exhausted(global_clk) ==> limits.exhausted(later),
        limits.max_cycles matches Some(most) ==> limits.exhausted(most) && (global_clk < most
            ==> !limits.exhausted(global_clk)),
        limits.max_cycles is None ==> !limits.exhausted(later),
{
}

} // verus!
