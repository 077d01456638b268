//! Splicing: replays a trace, decides where one shard ends and the next one starts, and slices
//! out the part of the trace that each shard needs.
use std::sync::Arc;

use vstd::prelude::*;

use crate::air::MipsAirId;
use crate::collections::WordMap;
use crate::core_vm::{CoreVM, MemSource};
use crate::cost::{self, AirCosts, BYTE_NUM_ROWS};
use crate::errors::ExecutionError;
use crate::events::MemValue;
use crate::instruction::Instruction;
use crate::machine::{Bus, Cpu};
use crate::minimal;
use crate::opcode::{Opcode, NUM_OPCODES};
use crate::program::Program;
use crate::register::Register;
use crate::replay;
use crate::sources::MemReads;
use crate::syscalls::{SyscallCode, NUM_SYSCALLS};
use crate::trace::MinimalTrace;

verus! {

/// The chip whose rows a retired instruction fills. The destination does not matter here, nor do
/// chips for rare forms: an estimate of the size of a shard only has to be monotone.
pub open spec fn opcode_air(i: Instruction) -> MipsAirId {
    match i.opcode {
        Opcode::ADD => if i.imm_c && !i.imm_b {
            MipsAirId::Addi
        } else {
            MipsAirId::Add
        },
        Opcode::SUB => MipsAirId::Sub,
        Opcode::MUL => MipsAirId::Mul,
        Opcode::MULT
        | Opcode::MULTU
        | Opcode::DIV
        | Opcode::DIVU
        | Opcode::MOD
        | Opcode::MODU => MipsAirId::DivRem,
        Opcode::SLL => MipsAirId::ShiftLeft,
        Opcode::SRL | Opcode::SRA | Opcode::ROR => MipsAirId::ShiftRight,
        Opcode::SLT | Opcode::SLTU => if i.imm_c {
            MipsAirId::Slti
        } else {
            MipsAirId::Lt
        },
        Opcode::AND | Opcode::OR | Opcode::XOR | Opcode::NOR => MipsAirId::Bitwise,
        Opcode::CLZ | Opcode::CLO => MipsAirId::CloClz,
        Opcode::BEQ
        | Opcode::BGEZ
        | Opcode::BGTZ
        | Opcode::BLEZ
        | Opcode::BLTZ
        | Opcode::BNE => MipsAirId::Branch,
        Opcode::Jump => MipsAirId::Jump,
        Opcode::Jumpi => MipsAirId::Jumpi,
        Opcode::JumpDirect => MipsAirId::JumpDirect,
        Opcode::SYSCALL => MipsAirId::SyscallInstrs,
        Opcode::LW => MipsAirId::LoadWord,
        Opcode::SW => MipsAirId::StoreWord,
        Opcode::LB | Opcode::LBU => MipsAirId::LoadByte,
        Opcode::LH | Opcode::LHU => MipsAirId::LoadHalf,
        Opcode::LWL | Opcode::LWR => MipsAirId::LoadWordUnaligned,
        Opcode::SB => MipsAirId::StoreByte,
        Opcode::SH => MipsAirId::StoreHalf,
        Opcode::SWL | Opcode::SWR => MipsAirId::StoreWordUnaligned,
        Opcode::SC | Opcode::LL => MipsAirId::StoreConditional,
        Opcode::MEQ | Opcode::MNE | Opcode::WSBH => MipsAirId::MovCond,
        Opcode::SEXT => MipsAirId::Sext,
        Opcode::INS => MipsAirId::Ins,
        Opcode::EXT => MipsAirId::Ext,
        Opcode::MADDU | Opcode::MSUBU | Opcode::MADD | Opcode::MSUB => MipsAirId::Maddsub,
        Opcode::TEQ => MipsAirId::Teq,
        Opcode::UNIMPL => MipsAirId::SyscallInstrs,
    }
}

/// The chip whose rows a retired instruction fills.
pub fn opcode_air_id(i: &Instruction) -> (r: MipsAirId)
    ensures
        r == opcode_air(*i),
{
    match i.opcode {
        Opcode::ADD => if i.imm_c && !i.imm_b {
            MipsAirId::Addi
        } else {
            MipsAirId::Add
        },
        Opcode::SUB => MipsAirId::Sub,
        Opcode::MUL => MipsAirId::Mul,
        Opcode::MULT
        | Opcode::MULTU
        | Opcode::DIV
        | Opcode::DIVU
        | Opcode::MOD
        | Opcode::MODU => MipsAirId::DivRem,
        Opcode::SLL => MipsAirId::ShiftLeft,
        Opcode::SRL | Opcode::SRA | Opcode::ROR => MipsAirId::ShiftRight,
        Opcode::SLT | Opcode::SLTU => if i.imm_c {
            MipsAirId::Slti
        } else {
            MipsAirId::Lt
        },
        Opcode::AND | Opcode::OR | Opcode::XOR | Opcode::NOR => MipsAirId::Bitwise,
        Opcode::CLZ | Opcode::CLO => MipsAirId::CloClz,
        Opcode::BEQ
        | Opcode::BGEZ
        | Opcode::BGTZ
        | Opcode::BLEZ
        | Opcode::BLTZ
        | Opcode::BNE => MipsAirId::Branch,
        Opcode::Jump => MipsAirId::Jump,
        Opcode::Jumpi => MipsAirId::Jumpi,
        Opcode::JumpDirect => MipsAirId::JumpDirect,
        Opcode::SYSCALL => MipsAirId::SyscallInstrs,
        Opcode::LW => MipsAirId::LoadWord,
        Opcode::SW => MipsAirId::StoreWord,
        Opcode::LB | Opcode::LBU => MipsAirId::LoadByte,
        Opcode::LH | Opcode::LHU => MipsAirId::LoadHalf,
        Opcode::LWL | Opcode::LWR => MipsAirId::LoadWordUnaligned,
        Opcode::SB => MipsAirId::StoreByte,
        Opcode::SH => MipsAirId::StoreHalf,
        Opcode::SWL | Opcode::SWR => MipsAirId::StoreWordUnaligned,
        Opcode::SC | Opcode::LL => MipsAirId::StoreConditional,
        Opcode::MEQ | Opcode::MNE | Opcode::WSBH => MipsAirId::MovCond,
        Opcode::SEXT => MipsAirId::Sext,
        Opcode::INS => MipsAirId::Ins,
        Opcode::EXT => MipsAirId::Ext,
        Opcode::MADDU | Opcode::MSUBU | Opcode::MADD | Opcode::MSUB => MipsAirId::Maddsub,
        Opcode::TEQ => MipsAirId::Teq,
        Opcode::UNIMPL => MipsAirId::SyscallInstrs,
    }
}

/// The chips that a system call fills besides the one for system call instructions.
pub open spec fn call_airs(code: SyscallCode) -> Seq<MipsAirId> {
    match code {
        SyscallCode::SYS_BRK
        | SyscallCode::SYS_MMAP
        | SyscallCode::SYS_MMAP2
        | SyscallCode::SYS_CLONE
        | SyscallCode::SYS_READ
        | SyscallCode::SYS_WRITE
        | SyscallCode::SYS_FCNTL => seq![MipsAirId::SysLinux],
        _ => cost::precompile_airs(code),
    }
}

/// The chips that a system call fills besides the one for system call instructions.
pub fn precompile_air_ids(code: SyscallCode) -> (r: Vec<MipsAirId>)
    ensures
        r@ == call_airs(code),
{
    match code {
        SyscallCode::SYS_BRK
        | SyscallCode::SYS_MMAP
        | SyscallCode::SYS_MMAP2
        | SyscallCode::SYS_CLONE
        | SyscallCode::SYS_READ
        | SyscallCode::SYS_WRITE
        | SyscallCode::SYS_FCNTL => {
            let r: Vec<MipsAirId> = vec![MipsAirId::SysLinux];
            proof {
                assert(r@ =~= call_airs(code));
            }
            r
        },
        _ => cost::family_air_ids(code),
    }
}

/// A total, or the greatest value that a total can have.
pub open spec fn saturated(total: int) -> u64 {
    if total > u64::MAX {
        u64::MAX
    } else {
        total as u64
    }
}

/// The running size of a shard: its cells, and the rows of each chip that has any, by the
/// position of the chip.
#[verifier::ext_equal]
pub struct Shape {
    pub area: u64,
    pub heights: Map<u64, u64>,
}

impl Shape {
    /// The rows of a chip.
    pub open spec fn height(self, id: MipsAirId) -> u64 {
        if self.heights.contains_key(id.ordinal() as u64) {
            self.heights[id.ordinal() as u64]
        } else {
            0
        }
    }

    /// The size with one more row of a chip.
    pub open spec fn added(self, costs: AirCosts, id: MipsAirId) -> Shape {
        Shape {
            area: saturated(self.area + costs.cost(id)),
            heights: self.heights.insert(
                id.ordinal() as u64,
                saturated(self.height(id) + 1),
            ),
        }
    }

    /// The size with one more row of each of the first `n` chips.
    pub open spec fn added_all(self, costs: AirCosts, ids: Seq<MipsAirId>, n: nat) -> Shape
        decreases n,
    {
        if n == 0 {
            self
        } else {
            self.added_all(costs, ids, (n - 1) as nat).added(costs, ids[n - 1])
        }
    }

    /// The size with one more instruction.
    #[verifier::opaque]
    pub open spec fn recorded(self, costs: AirCosts, i: Instruction, code: Option<SyscallCode>) -> Shape {
        let own = self.added(costs, opcode_air(i));
        match code {
            None => own,
            Some(code) => own.added_all(costs, call_airs(code), call_airs(code).len()),
        }
    }

    /// Whether the shard has reached its size: its cells, or the rows of some chip.
    pub open spec fn full(self, element_threshold: u64, height_threshold: u64) -> bool {
        ||| self.area >= element_threshold
        ||| exists|k: u64| #[trigger]
            self.heights.contains_key(k) && self.heights[k] >= height_threshold
    }

    /// The rows of the chip that has the most.
    pub open spec fn is_peak(self, peak: u64) -> bool {
        &&& forall|k: u64| #[trigger] self.heights.contains_key(k) ==> self.heights[k] <= peak
        &&& peak == 0 || exists|k: u64| #[trigger]
            self.heights.contains_key(k) && self.heights[k] == peak
    }

    /// No chip has fewer rows and there are no fewer cells.
    pub open spec fn at_least(self, other: Shape) -> bool {
        &&& self.area >= other.area
        &&& forall|k: u64| #[trigger]
            other.heights.contains_key(k) ==> self.heights.contains_key(k) && self.heights[k]
                >= other.heights[k]
    }
}

proof fn lemma_adding_grows(s: Shape, costs: AirCosts, ids: Seq<MipsAirId>, n: nat)
    ensures
        s.added_all(costs, ids, n).at_least(s),
    decreases n,
{
    if n > 0 {
        lemma_adding_grows(s, costs, ids, (n - 1) as nat);
    }
}

/// Recording an instruction never makes a shard smaller: once it has reached its size, it stays
/// there.
pub proof fn recording_is_monotone(
    s: Shape,
    costs: AirCosts,
    i: Instruction,
    code: Option<SyscallCode>,
    element_threshold: u64,
    height_threshold: u64,
)
    ensures
        s.recorded(costs, i, code).at_least(s),
        s.full(element_threshold, height_threshold) ==> s.recorded(costs, i, code).full(
            element_threshold,
            height_threshold,
        ),
{
    reveal(Shape::recorded);
    let own = s.added(costs, opcode_air(i));
    assert(own.at_least(s));
    if let Some(code) = code {
        lemma_adding_grows(own, costs, call_airs(code), call_airs(code).len());
    }
    let r = s.recorded(costs, i, code);
    assert(r.at_least(s));
    if s.full(element_threshold, height_threshold) && s.area < element_threshold {
        let k = choose|k: u64| #[trigger]
            s.heights.contains_key(k) && s.heights[k] >= height_threshold;
        assert(r.heights.contains_key(k));
    }
}

/// The product of two numbers, or the greatest value that it can have.
fn saturating_product(a: u64, b: u64) -> (r: u64)
    ensures
        r == saturated(a * b),
{
    proof {
        assert(0 <= a * b <= 0xffff_ffff_ffff_ffff * 0xffff_ffff_ffff_ffff) by (nonlinear_arith)
            requires
                a <= 0xffff_ffff_ffff_ffff,
                b <= 0xffff_ffff_ffff_ffff,
        ;
    }
    let product: u128 = (a as u128) * (b as u128);
    if product > 0xffff_ffff_ffff_ffff {
        0xffff_ffff_ffff_ffff
    } else {
        product as u64
    }
}

/// Keeps the running size of a shard and says when it has reached its size.
pub struct ShapeChecker {
    costs: AirCosts,
    baseline: u64,
    trace_area: u64,
    heights: WordMap,
    element_threshold: u64,
    height_threshold: u64,
}

/// The cells of a shard without instructions: the byte table, and a row for each instruction of
/// the program.
pub open spec fn baseline_area(costs: AirCosts, program_size: u64) -> u64 {
    saturated(
        saturated(BYTE_NUM_ROWS * costs.cost(MipsAirId::Byte)) + saturated(
            program_size * costs.cost(MipsAirId::Program),
        ),
    )
}

impl ShapeChecker {
    /// The running size.
    pub closed spec fn shape(&self) -> Shape {
        Shape { area: self.trace_area, heights: self.heights@ }
    }

    /// The costs of the chips.
    pub closed spec fn costs(&self) -> AirCosts {
        self.costs
    }

    /// The size of a shard without instructions.
    pub closed spec fn empty_shape(&self) -> Shape {
        Shape { area: self.baseline, heights: Map::empty() }
    }

    /// The cells at which a shard has reached its size.
    pub closed spec fn elements(&self) -> u64 {
        self.element_threshold
    }

    /// The rows at which a shard has reached its size.
    pub closed spec fn rows(&self) -> u64 {
        self.height_threshold
    }

    /// The same costs and thresholds.
    pub open spec fn same_rules(&self, other: &Self) -> bool {
        &&& self.costs() == other.costs()
        &&& self.empty_shape() == other.empty_shape()
        &&& self.elements() == other.elements()
        &&& self.rows() == other.rows()
    }

    /// Create a checker that stands at the start of a shard.
    pub fn new(costs: AirCosts, program_size: u64, element_threshold: u64, height_threshold: u64) -> (r:
        Self)
        ensures
            r.costs() == costs,
            r.elements() == element_threshold,
            r.rows() == height_threshold,
            r.empty_shape() == (Shape {
                area: baseline_area(costs, program_size),
                heights: Map::empty(),
            }),
            r.shape() == r.empty_shape(),
    {
        let bytes: u64 = saturating_product(BYTE_NUM_ROWS, costs.cost_or_zero(MipsAirId::Byte));
        let program: u64 = saturating_product(program_size, costs.cost_or_zero(MipsAirId::Program));
        let baseline: u64 = bytes.saturating_add(program);
        let heights: WordMap = WordMap::new();
        proof {
            assert(heights@ =~= Map::<u64, u64>::empty());
        }
        ShapeChecker {
            costs,
            baseline,
            trace_area: baseline,
            heights,
            element_threshold,
            height_threshold,
        }
    }

    /// Counts a row of a chip.
    fn count_row(&mut self, id: MipsAirId)
        ensures
            final(self).same_rules(old(self)),
            final(self).shape() == old(self).shape().added(old(self).costs(), id),
    {
        let cost: u64 = self.costs.cost_or_zero(id);
        self.trace_area = self.trace_area.saturating_add(cost);
        let rows: u64 = match self.heights.get(id.index() as u64) {
            Some(rows) => rows,
            None => 0,
        };
        self.heights.insert(id.index() as u64, rows.saturating_add(1));
    }

    /// Counts a retired instruction, together with its system call if it made one.
    pub fn record_instruction(&mut self, instruction: &Instruction, syscall_code: Option<SyscallCode>)
        ensures
            final(self).same_rules(old(self)),
            final(self).shape() == old(self).shape().recorded(
                old(self).costs(),
                *instruction,
                syscall_code,
            ),
    {
        proof {
            reveal(Shape::recorded);
        }
        self.count_row(opcode_air_id(instruction));
        if let Some(code) = syscall_code {
            let ids: Vec<MipsAirId> = precompile_air_ids(code);
            let ghost own = self.shape();
            let mut i: usize = 0;
            while i < ids.len()
                invariant
                    i <= ids@.len(),
                    self.same_rules(old(self)),
                    self.shape() == own.added_all(old(self).costs(), ids@, i as nat),
                decreases ids@.len() - i,
            {
                self.count_row(ids[i]);
                i = i + 1;
            }
        }
    }

    /// Whether the shard has reached its size.
    pub fn check_shard_limit(&self) -> (r: bool)
        ensures
            r == self.shape().full(self.elements(), self.rows()),
    {
        if self.trace_area >= self.element_threshold {
            return true;
        }
        let heights: Vec<u64> = self.heights.values();
        let mut i: usize = 0;
        while i < heights.len()
            invariant
                i <= heights@.len(),
                forall|j: int| 0 <= j < i ==> #[trigger] heights@[j] < self.height_threshold,
                forall|j: int|
                    0 <= j < heights@.len() ==> self.heights@.contains_value(#[trigger] heights@[j]),
            decreases heights@.len() - i,
        {
            if heights[i] >= self.height_threshold {
                proof {
                    assert(self.heights@.contains_value(heights@[i as int]));
                    let k = choose|k: u64| #[trigger]
                        self.heights@.dom().contains(k) && self.heights@[k] == heights@[i as int];
                    assert(self.shape().heights.contains_key(k));
                }
                return true;
            }
            i = i + 1;
        }
        proof {
            assert forall|k: u64| #[trigger] self.shape().heights.contains_key(k) implies self.shape().heights[k]
                < self.height_threshold by {
                assert(heights@.contains(self.heights@[k]));
            }
        }
        false
    }

    /// The cells, and the rows of the chip that has the most.
    pub fn current_totals(&self) -> (r: (u64, u64))
        ensures
            r.0 == self.shape().area,
            self.shape().is_peak(r.1),
    {
        let heights: Vec<u64> = self.heights.values();
        let mut peak: u64 = 0;
        let mut i: usize = 0;
        while i < heights.len()
            invariant
                i <= heights@.len(),
                forall|j: int| 0 <= j < i ==> #[trigger] heights@[j] <= peak,
                peak == 0 || self.heights@.contains_value(peak),
                forall|j: int|
                    0 <= j < heights@.len() ==> self.heights@.contains_value(#[trigger] heights@[j]),
            decreases heights@.len() - i,
        {
            if heights[i] > peak {
                peak = heights[i];
            }
            i = i + 1;
        }
        proof {
            assert forall|k: u64| #[trigger] self.shape().heights.contains_key(k) implies self.shape().heights[k]
                <= peak by {
                assert(heights@.contains(self.heights@[k]));
            }
            if peak != 0 {
                let k = choose|k: u64| #[trigger]
                    self.heights@.dom().contains(k) && self.heights@[k] == peak;
                assert(self.shape().heights.contains_key(k));
            }
        }
        (self.trace_area, peak)
    }

    /// Goes to the start of the next shard.
    fn start_new_shard(&mut self)
        ensures
            final(self).same_rules(old(self)),
            final(self).shape() == old(self).empty_shape(),
    {
        self.trace_area = self.baseline;
        self.heights.clear();
        proof {
            assert(self.heights@ =~= Map::<u64, u64>::empty());
        }
    }
}

/// The part of a run that one shard needs: where it starts, when it ends, and its part of the log.
#[derive(Clone)]
pub struct SplicedMinimalTrace {
    start_registers: [u32; 36],
    start_pc: u32,
    start_clk: u64,
    end_clk: u64,
    reads: MemReads,
}

impl MinimalTrace for SplicedMinimalTrace {
    closed spec fn registers_at_start(&self) -> Seq<u32> {
        self.start_registers@
    }

    closed spec fn pc_at_start(&self) -> u32 {
        self.start_pc
    }

    closed spec fn clk_at_start(&self) -> u64 {
        self.start_clk
    }

    closed spec fn clk_at_end(&self) -> u64 {
        self.end_clk
    }

    closed spec fn entries(&self) -> Seq<MemValue> {
        self.reads.left()
    }

    closed spec fn wf(&self) -> bool {
        MemSource::wf(&self.reads)
    }

    fn start_registers(&self) -> (r: [u32; 36]) {
        self.start_registers
    }

    fn pc_start(&self) -> (r: u32) {
        self.start_pc
    }

    fn clk_start(&self) -> (r: u64) {
        self.start_clk
    }

    fn clk_end(&self) -> (r: u64) {
        self.end_clk
    }

    fn num_mem_reads(&self) -> (r: usize) {
        self.reads.len()
    }

    fn mem_reads(&self) -> (r: MemReads) {
        let r = self.reads.window(0, self.reads.len());
        proof {
            assert(r.left() =~= self.reads.left());
        }
        r
    }

    fn mem_reads_between(&self, start: usize, end: usize) -> (r: MemReads) {
        self.reads.window(start, end)
    }
}

/// Why the walk over a trace stopped.
#[derive(Clone, Copy, Debug, PartialEq, Eq, Structural)]
pub enum SplicingStatus {
    /// The program has ended: no shard follows.
    Done,
    /// The trace is used up but the program has not ended: the next chunk continues it. The shard
    /// that is open stays open.
    TraceEnd,
    /// The shard has reached its size: it has to be spliced before the walk goes on.
    ShardBoundary,
}

/// What a walk over a trace depends on besides the machine.
pub struct Walk {
    pub program: Program,
    pub max_syscall_cycles: u32,
    pub costs: AirCosts,
    pub element_threshold: u64,
    pub height_threshold: u64,
    pub clk_end: u64,
}

impl Walk {
    /// The machine after `n` instructions from `start`.
    pub open spec fn after(self, start: Cpu, n: nat) -> Option<Cpu> {
        start.steps(self.program, self.max_syscall_cycles, n)
    }

    /// The system call that a machine is about to make, if it is about to make one.
    pub open spec fn call_at(self, c: Cpu) -> Option<SyscallCode> {
        if self.program.at(c.pc).opcode is SYSCALL {
            Some(SyscallCode::decode(c.reg(Register::V0.number())))
        } else {
            None
        }
    }

    /// The size of the shard after `n` instructions.
    #[verifier::opaque]
    pub open spec fn shape_after(self, start: Cpu, shape: Shape, n: nat) -> Shape
        decreases n,
    {
        if n == 0 {
            shape
        } else {
            let before = self.after(start, (n - 1) as nat)->Some_0;
            self.shape_after(start, shape, (n - 1) as nat).recorded(
                self.costs,
                self.program.at(before.pc),
                self.call_at(before),
            )
        }
    }

    /// Whether and why the walk stops at a machine: never between a branch or jump and its delay
    /// slot, unless the program or the trace has ended.
    pub open spec fn status(self, c: Cpu, shape: Shape) -> Option<SplicingStatus> {
        if c.done(self.program) {
            Some(SplicingStatus::Done)
        } else if c.clk >= self.clk_end {
            Some(SplicingStatus::TraceEnd)
        } else if !c.delay && shape.full(self.element_threshold, self.height_threshold) {
            Some(SplicingStatus::ShardBoundary)
        } else {
            None
        }
    }

    /// After each of the first `n` instructions the walk goes on.
    pub open spec fn goes_on(self, start: Cpu, shape: Shape, n: nat) -> bool {
        forall|k: nat|
            1 <= k <= n ==> (#[trigger] self.after(start, k) matches Some(c) && self.status(
                c,
                self.shape_after(start, shape, k),
            ) is None)
    }

    /// The walk stops after `n` instructions, and not before.
    pub open spec fn stops(self, start: Cpu, shape: Shape, n: nat, status: SplicingStatus) -> bool {
        &&& n >= 1
        &&& self.goes_on(start, shape, (n - 1) as nat)
        &&& self.after(start, n) matches Some(end) && self.status(
            end,
            self.shape_after(start, shape, n),
        ) == Some(status)
    }

    /// The walk fails: the instruction behind the first `n` does.
    pub open spec fn fails(self, start: Cpu, shape: Shape, n: nat, e: ExecutionError, end: Cpu) -> bool {
        &&& self.goes_on(start, shape, n)
        &&& self.after(start, n) matches Some(c) && c.step(self.program, self.max_syscall_cycles) == (
            end,
            Err::<(), ExecutionError>(e),
        )
    }
}

/// A shard ends as soon as it has reached its size: wherever the walk went on in spite of the size it
/// was behind a branch or jump whose delay slot was still to come. It ends nowhere else for its size.
pub proof fn a_shard_ends_as_soon_as_it_is_full(
    walk: Walk,
    start: Cpu,
    shape: Shape,
    n: nat,
    status: SplicingStatus,
    k: nat,
)
    requires
        walk.stops(start, shape, n, status),
        1 <= k < n,
    ensures
        walk.after(start, k) is Some,
        ({
            let mid = walk.after(start, k)->Some_0;
            let end = walk.after(start, n)->Some_0;
            let size = walk.shape_after(start, shape, k);
            &&& mid.clk < walk.clk_end
            &&& !mid.done(walk.program)
            &&& size.area >= walk.element_threshold ==> mid.delay
            &&& (exists|h: u64| #[trigger]
                size.heights.contains_key(h) && size.heights[h] >= walk.height_threshold)
                ==> mid.delay
            &&& status == SplicingStatus::ShardBoundary ==> !end.delay && !end.done(walk.program)
                && end.clk < walk.clk_end
            &&& status == SplicingStatus::TraceEnd ==> end.clk >= walk.clk_end && !end.done(
                walk.program,
            )
            &&& status == SplicingStatus::Done ==> end.done(walk.program)
        }),
{
}

pub proof fn lemma_shape_after(walk: Walk, start: Cpu, shape: Shape, n: nat)
    ensures
        walk.shape_after(start, shape, 0) == shape,
        walk.shape_after(start, shape, n + 1) == walk.shape_after(start, shape, n).recorded(
            walk.costs,
            walk.program.at(walk.after(start, n)->Some_0.pc),
            walk.call_at(walk.after(start, n)->Some_0),
        ),
{
    reveal_with_fuel(Walk::shape_after, 2);
}

/// Where the open shard starts, and the part of the log that it has used up in earlier chunks.
pub struct OpenShard {
    pub registers: [u32; 36],
    pub pc: u32,
    pub clk: u64,
    pub carried: Vec<MemValue>,
}

/// What is kept of a walk when its trace is used up but its shard is still open.
pub struct SplicingCarry {
    shape_checker: ShapeChecker,
    shard: OpenShard,
}

impl SplicingCarry {
    /// Keeps the running size.
    pub closed spec fn checker(&self) -> ShapeChecker {
        self.shape_checker
    }

    /// The open shard.
    pub closed spec fn shard(&self) -> OpenShard {
        self.shard
    }
}

/// Walks over a trace and finds the ends of shards.
pub struct SplicingVM {
    core: CoreVM<MemReads>,
    clk_end: u64,
    shape_checker: ShapeChecker,
    shard: OpenShard,
    /// How much of the trace was used up when the open shard started.
    mem_reads_start: usize,
}

impl SplicingVM {
    /// The machine in mathematical terms.
    pub closed spec fn cpu(&self) -> Cpu {
        self.core.cpu()
    }

    /// What the walk depends on besides the machine.
    pub closed spec fn walk(&self) -> Walk {
        Walk {
            program: *self.core.program,
            max_syscall_cycles: self.core.max_syscall_cycles,
            costs: self.shape_checker.costs(),
            element_threshold: self.shape_checker.elements(),
            height_threshold: self.shape_checker.rows(),
            clk_end: self.clk_end,
        }
    }

    /// Keeps the running size.
    pub closed spec fn checker(&self) -> ShapeChecker {
        self.shape_checker
    }

    /// The open shard.
    pub closed spec fn shard(&self) -> OpenShard {
        self.shard
    }

    /// How much of the trace was used up when the open shard started.
    pub closed spec fn shard_start(&self) -> nat {
        self.mem_reads_start as nat
    }

    /// The parts fit together.
    pub closed spec fn wf(&self) -> bool {
        self.core.wf()
    }

    /// The machine stands at an instruction of the program.
    pub open spec fn ready(&self) -> bool {
        self.walk().program.contains_pc(self.cpu().pc)
    }

    /// How much of a trace is used up.
    pub open spec fn consumed<T: MinimalTrace>(&self, trace: &T) -> int {
        trace.entries().len() - self.cpu().bus->Replay_0.len()
    }

    /// The walk is one over this trace.
    pub open spec fn walks<T: MinimalTrace>(&self, trace: &T) -> bool {
        &&& trace.wf()
        &&& self.cpu().bus is Replay
        &&& self.shard_start() <= self.consumed(trace) <= trace.entries().len()
        &&& self.cpu().bus->Replay_0 == trace.entries().skip(self.consumed(trace))
        &&& self.walk().clk_end == trace.clk_at_end()
    }

    /// Create a walk that starts with the trace, a shard starting there too.
    pub fn new<T: MinimalTrace>(
        trace: &T,
        program: Arc<Program>,
        max_syscall_cycles: u32,
        costs: AirCosts,
        element_threshold: u64,
        height_threshold: u64,
    ) -> (r: Self)
        requires
            trace.wf(),
            program.wf(),
        ensures
            r.wf(),
            r.walks(trace),
            r.consumed(trace) == 0,
            r.shard_start() == 0,
            starts_with(r.cpu(), trace),
            r.walk() == (Walk {
                program: *program,
                max_syscall_cycles,
                costs,
                element_threshold,
                height_threshold,
                clk_end: trace.clk_at_end(),
            }),
            r.shard().registers@ == trace.registers_at_start(),
            r.shard().pc == trace.pc_at_start(),
            r.shard().clk == trace.clk_at_start(),
            r.shard().carried@.len() == 0,
            r.checker().empty_shape() == (Shape {
                area: baseline_area(costs, program.instructions@.len() as u64),
                heights: Map::empty(),
            }),
            r.checker().shape() == r.checker().empty_shape(),
    {
        let size: u64 = program.instructions.len() as u64;
        let shape_checker: ShapeChecker = ShapeChecker::new(
            costs,
            size,
            element_threshold,
            height_threshold,
        );
        let shard = OpenShard {
            registers: trace.start_registers(),
            pc: trace.pc_start(),
            clk: trace.clk_start(),
            carried: Vec::new(),
        };
        Self::resume(
            SplicingCarry { shape_checker, shard },
            trace,
            program,
            max_syscall_cycles,
        )
    }

    /// Continues a walk with the next chunk.
    pub fn resume<T: MinimalTrace>(
        carry: SplicingCarry,
        trace: &T,
        program: Arc<Program>,
        max_syscall_cycles: u32,
    ) -> (r: Self)
        requires
            trace.wf(),
            program.wf(),
        ensures
            r.wf(),
            r.walks(trace),
            r.consumed(trace) == 0,
            r.shard_start() == 0,
            starts_with(r.cpu(), trace),
            r.walk() == (Walk {
                program: *program,
                max_syscall_cycles,
                costs: carry.checker().costs(),
                element_threshold: carry.checker().elements(),
                height_threshold: carry.checker().rows(),
                clk_end: trace.clk_at_end(),
            }),
            r.shard() == carry.shard(),
            r.checker() == carry.checker(),
    {
        let core: CoreVM<MemReads> = CoreVM::new(
            program,
            trace.start_registers(),
            trace.mem_reads(),
            trace.pc_start(),
            trace.clk_start(),
            max_syscall_cycles,
        );
        let r = SplicingVM {
            core,
            clk_end: trace.clk_end(),
            shape_checker: carry.shape_checker,
            shard: carry.shard,
            mem_reads_start: 0,
        };
        proof {
            assert(trace.entries().skip(0) =~= trace.entries());
        }
        r
    }

    /// A walk depends on the costs and thresholds of its checker.
    pub proof fn lemma_walk_uses_the_checker(&self)
        ensures
            self.walk().costs == self.checker().costs(),
            self.walk().element_threshold == self.checker().elements(),
            self.walk().height_threshold == self.checker().rows(),
    {
    }

    /// Starts to measure the open shard by other costs and thresholds.
    pub fn set_limits(&mut self, costs: AirCosts, element_threshold: u64, height_threshold: u64)
        requires
            old(self).wf(),
        ensures
            final(self).wf(),
            final(self).cpu() == old(self).cpu(),
            final(self).shard() == old(self).shard(),
            final(self).shard_start() == old(self).shard_start(),
            final(self).walk() == (Walk {
                costs,
                element_threshold,
                height_threshold,
                ..old(self).walk()
            }),
            final(self).checker().shape() == final(self).checker().empty_shape(),
            final(self).checker().empty_shape() == (Shape {
                area: baseline_area(costs, old(self).walk().program.instructions@.len() as u64),
                heights: Map::empty(),
            }),
    {
        let size: u64 = self.core.program.instructions.len() as u64;
        self.shape_checker = ShapeChecker::new(costs, size, element_threshold, height_threshold);
    }

    /// The register file.
    pub fn registers(&self) -> (r: [u32; 36])
        ensures
            r@ == self.cpu().regs,
    {
        self.core.registers
    }

    /// The program counter.
    pub fn pc(&self) -> (r: u32)
        ensures
            r == self.cpu().pc,
    {
        self.core.pc
    }

    /// The clock.
    pub fn clk(&self) -> (r: u64)
        ensures
            r == self.cpu().clk,
    {
        self.core.clk
    }

    /// The cells of the open shard, and the rows of the chip that has the most.
    pub fn current_shape_totals(&self) -> (r: (u64, u64))
        ensures
            r.0 == self.checker().shape().area,
            self.checker().shape().is_peak(r.1),
    {
        self.shape_checker.current_totals()
    }

    /// Executes an instruction and counts it.
    fn execute_one(&mut self) -> (r: Result<(), ExecutionError>)
        requires
            old(self).wf(),
            old(self).ready(),
        ensures
            final(self).wf(),
            final(self).walk() == old(self).walk(),
            final(self).shard() == old(self).shard(),
            final(self).shard_start() == old(self).shard_start(),
            final(self).checker().same_rules(&old(self).checker()),
            replay::follows(old(self).cpu().bus, final(self).cpu().bus),
            (final(self).cpu(), r) == old(self).cpu().step(
                old(self).walk().program,
                old(self).walk().max_syscall_cycles,
            ),
            r is Ok ==> final(self).cpu().retired == old(self).cpu().retired + 1,
            r is Err ==> final(self).cpu().retired == old(self).cpu().retired,
            r is Ok ==> final(self).checker().shape() == old(self).checker().shape().recorded(
                old(self).walk().costs,
                old(self).walk().program.at(old(self).cpu().pc),
                old(self).walk().call_at(old(self).cpu()),
            ),
            r is Err ==> final(self).checker() == old(self).checker(),
    {
        let ghost before = self.core.cpu();
        let ghost walk = self.walk();
        let instruction: Instruction = self.core.program.fetch(self.core.pc);
        let syscall_code: Option<SyscallCode> = if instruction.is_syscall_instruction() {
            Some(SyscallCode::from_u32(self.core.reg(Register::V0.index())))
        } else {
            None
        };
        let stepped: Result<(), ExecutionError> = self.core.execute_instruction();
        proof {
            minimal::lemma_step_retired(before, walk.program, walk.max_syscall_cycles);
            replay::a_step_follows(before, walk.program, walk.max_syscall_cycles);
        }
        if let Err(e) = stepped {
            return Err(e);
        }
        self.shape_checker.record_instruction(&instruction, syscall_code);
        Ok(())
    }

    /// Walks until the program ends, the trace is used up, or the shard has reached its size.
    /// None of these is looked at before an instruction has retired.
    pub fn execute(&mut self) -> (r: Result<SplicingStatus, ExecutionError>)
        requires
            old(self).wf(),
            old(self).ready(),
        ensures
            final(self).wf(),
            final(self).walk() == old(self).walk(),
            final(self).shard() == old(self).shard(),
            final(self).shard_start() == old(self).shard_start(),
            final(self).checker().same_rules(&old(self).checker()),
            replay::follows(old(self).cpu().bus, final(self).cpu().bus),
            ({
                let walk = old(self).walk();
                let start = old(self).cpu();
                let shape = old(self).checker().shape();
                let n = (final(self).cpu().retired - start.retired) as nat;
                &&& final(self).checker().shape() == walk.shape_after(start, shape, n)
                &&& match r {
                    Ok(status) => {
                        &&& walk.stops(start, shape, n, status)
                        &&& walk.after(start, n) == Some(final(self).cpu())
                        &&& status != SplicingStatus::Done ==> final(self).ready()
                    },
                    Err(e) => walk.fails(start, shape, n, e, final(self).cpu()),
                }
            }),
    {
        let ghost start = self.core.cpu();
        let ghost shape = self.shape_checker.shape();
        let ghost walk = self.walk();
        proof {
            replay::a_run_follows(start, walk.program, walk.max_syscall_cycles, 0);
            lemma_shape_after(walk, start, shape, 0);
        }
        loop
            invariant
                self.core.wf(),
                self.walk() == walk,
                walk == old(self).walk(),
                start == old(self).cpu(),
                shape == old(self).checker().shape(),
                self.shard == old(self).shard,
                self.mem_reads_start == old(self).mem_reads_start,
                self.shape_checker.same_rules(&old(self).shape_checker),
                self.core.program.contains_pc(self.core.pc),
                start.retired <= self.core.retired,
                walk.goes_on(start, shape, (self.core.retired - start.retired) as nat),
                walk.after(start, (self.core.retired - start.retired) as nat) == Some(
                    self.core.cpu(),
                ),
                self.shape_checker.shape() == walk.shape_after(
                    start,
                    shape,
                    (self.core.retired - start.retired) as nat,
                ),
                replay::follows(start.bus, self.core.cpu().bus),
            decreases u64::MAX - self.core.retired,
        {
            let ghost before = self.core.cpu();
            let ghost n = (before.retired - start.retired) as nat;
            if let Err(e) = self.execute_one() {
                proof {
                    replay::following_is_transitive(start.bus, before.bus, self.core.cpu().bus);
                }
                return Err(e);
            }
            proof {
                replay::following_is_transitive(start.bus, before.bus, self.core.cpu().bus);
                assert(walk.after(start, n + 1) == Some(self.core.cpu()));
                lemma_shape_after(walk, start, shape, n);
                assert(self.shape_checker.shape() == walk.shape_after(start, shape, n + 1));
            }
            if self.core.is_done() {
                return Ok(SplicingStatus::Done);
            }
            if self.core.clk >= self.clk_end {
                return Ok(SplicingStatus::TraceEnd);
            }
            if !self.core.next_is_delayslot && self.shape_checker.check_shard_limit() {
                return Ok(SplicingStatus::ShardBoundary);
            }
        }
    }

    /// The part of the log that the open shard has used up so far.
    fn shard_log<T: MinimalTrace>(&self, trace: &T) -> (r: (usize, Vec<MemValue>))
        requires
            self.wf(),
            self.walks(trace),
        ensures
            r.0 == self.consumed(trace),
            r.1@ == shard_entries(self, trace),
    {
        let consumed: usize = trace.num_mem_reads() - self.core.mem.len();
        let mut log: Vec<MemValue> = Vec::new();
        let mut i: usize = 0;
        while i < self.shard.carried.len()
            invariant
                i <= self.shard.carried@.len(),
                log@ =~= self.shard.carried@.take(i as int),
            decreases self.shard.carried@.len() - i,
        {
            log.push(self.shard.carried[i]);
            i = i + 1;
        }
        proof {
            assert(self.shard.carried@.take(i as int) =~= self.shard.carried@);
        }
        trace.mem_reads_between(self.mem_reads_start, consumed).copy_to(&mut log);
        (consumed, log)
    }

    /// Slices out the shard that ends here and starts the next one.
    pub fn splice<T: MinimalTrace>(&mut self, trace: &T) -> (r: SplicedMinimalTrace)
        requires
            old(self).wf(),
            old(self).walks(trace),
        ensures
            final(self).wf(),
            final(self).walks(trace),
            final(self).cpu() == old(self).cpu(),
            final(self).walk() == old(self).walk(),
            final(self).checker().same_rules(&old(self).checker()),
            final(self).checker().shape() == old(self).checker().empty_shape(),
            final(self).shard_start() == old(self).consumed(trace),
            final(self).shard().registers@ == old(self).cpu().regs,
            final(self).shard().pc == old(self).cpu().pc,
            final(self).shard().clk == old(self).cpu().clk,
            final(self).shard().carried@.len() == 0,
            r.wf(),
            r.registers_at_start() == old(self).shard().registers@,
            r.pc_at_start() == old(self).shard().pc,
            r.clk_at_start() == old(self).shard().clk,
            r.clk_at_end() == old(self).cpu().clk,
            r.entries() == shard_entries(old(self), trace),
    {
        let consumed: usize = trace.num_mem_reads() - self.core.mem.len();
        let reads: MemReads = if self.shard.carried.len() == 0 {
            let reads = trace.mem_reads_between(self.mem_reads_start, consumed);
            proof {
                assert(shard_entries(self, trace) =~= reads.left());
            }
            reads
        } else {
            let (_, log) = self.shard_log(trace);
            let n: usize = log.len();
            proof {
                assert(log@.subrange(0, n as int) =~= log@);
            }
            MemReads::bounded(Arc::new(log), 0, n)
        };
        let spliced = SplicedMinimalTrace {
            start_registers: self.shard.registers,
            start_pc: self.shard.pc,
            start_clk: self.shard.clk,
            end_clk: self.core.clk,
            reads,
        };
        self.shard = OpenShard {
            registers: self.core.registers,
            pc: self.core.pc,
            clk: self.core.clk,
            carried: Vec::new(),
        };
        self.mem_reads_start = consumed;
        self.shape_checker.start_new_shard();
        spliced
    }

    /// Keeps what the next chunk needs to continue the walk.
    pub fn into_carry<T: MinimalTrace>(self, trace: &T) -> (r: SplicingCarry)
        requires
            self.wf(),
            self.walks(trace),
        ensures
            r.checker() == self.checker(),
            r.shard().registers == self.shard().registers,
            r.shard().pc == self.shard().pc,
            r.shard().clk == self.shard().clk,
            r.shard().carried@ == shard_entries(&self, trace),
    {
        let (_, log) = self.shard_log(trace);
        let shard = OpenShard {
            registers: self.shard.registers,
            pc: self.shard.pc,
            clk: self.shard.clk,
            carried: log,
        };
        SplicingCarry { shape_checker: self.shape_checker, shard }
    }
}

/// A walk over a trace stays a walk over it.
pub proof fn walking_stays_on_the_trace<T: MinimalTrace>(
    before: &SplicingVM,
    after: &SplicingVM,
    trace: &T,
)
    requires
        before.walks(trace),
        after.walk() == before.walk(),
        after.shard_start() == before.shard_start(),
        replay::follows(before.cpu().bus, after.cpu().bus),
    ensures
        after.walks(trace),
{
    reveal(replay::follows);
    assert(trace.entries().skip(before.consumed(trace)).skip(
        before.cpu().bus->Replay_0.len() - after.cpu().bus->Replay_0.len(),
    ) =~= trace.entries().skip(after.consumed(trace)));
}

/// A machine that starts with a trace and has done nothing yet.
pub open spec fn starts_with<T: MinimalTrace>(c: Cpu, trace: &T) -> bool {
    &&& c.regs == trace.registers_at_start()
    &&& c.pc == trace.pc_at_start()
    &&& c.next_pc == trace.pc_at_start().wrapping_add(4)
    &&& c.clk == trace.clk_at_start()
    &&& !c.delay
    &&& !c.exited
    &&& c.output.len() == 0
    &&& c.fork is None
    &&& c.retired == 0
    &&& c.opcodes == Seq::new(NUM_OPCODES as nat, |i: int| 0u64)
    &&& c.syscalls == Seq::new(NUM_SYSCALLS as nat, |i: int| 0u64)
    &&& c.bus == Bus::Replay(trace.entries())
}

/// The part of the log that the open shard has used up: in earlier chunks, and in this one.
pub open spec fn shard_entries<T: MinimalTrace>(vm: &SplicingVM, trace: &T) -> Seq<MemValue> {
    vm.shard().carried@ + trace.entries().subrange(
        vm.shard_start() as int,
        vm.consumed(trace),
    )
}

/// A shard that spans two chunks can be replayed: a machine that starts where the shard starts and
/// reads what the shard used up of the first log and then what it used up of the second one
/// retires the same instructions and ends where the run ends.
pub proof fn replay_spans_chunks(
    live: Cpu,
    replayed: Cpu,
    program: Program,
    max_syscall_cycles: u32,
    m: nat,
    n: nat,
    k: nat,
    mid: Cpu,
    cut: Cpu,
    end: Cpu,
)
    requires
        live.bus matches Bus::Live(ram) && ram.log.len() == 0,
        live.steps(program, max_syscall_cycles, m) == Some(mid),
        mid.steps(program, max_syscall_cycles, n) == Some(cut),
        minimal::log_taken(cut).steps(program, max_syscall_cycles, k) == Some(end),
        replayed.regs == mid.regs,
        replayed.pc == mid.pc,
        replayed.next_pc == mid.next_pc,
        replayed.clk == mid.clk,
        replayed.delay == mid.delay,
        replayed.exited == mid.exited,
        replayed.fork == mid.fork,
        replayed.retired <= mid.retired,
        replayed.bus == Bus::Replay(
            cut.bus->Live_0.log.skip(mid.bus->Live_0.log.len() as int) + end.bus->Live_0.log,
        ),
    ensures
        replayed.steps(program, max_syscall_cycles, n + k) matches Some(s) && {
            &&& s.regs == end.regs
            &&& s.pc == end.pc
            &&& s.next_pc == end.next_pc
            &&& s.clk == end.clk
            &&& s.delay == end.delay
            &&& s.exited == end.exited
            &&& s.fork == end.fork
            &&& s.bus == Bus::Replay(Seq::empty())
        },
{
    reveal(replay::relogged);
    reveal(replay::follows);
    let first = cut.bus->Live_0.log;
    replay::lemma_steps_are_live(live, program, max_syscall_cycles, m);
    replay::lemma_steps_are_live(mid, program, max_syscall_cycles, n);
    replay::lemma_steps_are_live(minimal::log_taken(cut), program, max_syscall_cycles, k);
    replay::a_run_follows(mid, program, max_syscall_cycles, n);
    replay::taking_the_log_changes_nothing(
        first,
        minimal::log_taken(cut),
        program,
        max_syscall_cycles,
        k,
    );
    assert(first + Seq::<MemValue>::empty() =~= first);
    assert(replay::relogged_cpu(first, minimal::log_taken(cut)) == cut);
    let whole = replay::relogged_cpu(first, end);
    replay::runs_add_up(mid, program, max_syscall_cycles, n, k);
    let total = whole.bus->Live_0.log;
    assert(total == first + end.bus->Live_0.log);
    let from = mid.bus->Live_0.log.len() as int;
    assert(total.subrange(from, total.len() as int) =~= first.skip(from) + end.bus->Live_0.log);
    replay::replay_reproduces_a_part(
        live,
        replayed,
        program,
        max_syscall_cycles,
        m,
        n + k,
        mid,
        whole,
    );
}

} // verus!
