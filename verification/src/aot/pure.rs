//! Compiling a whole program: the frame that every program has, and the code that runs a program
//! without keeping anything.
use vstd::prelude::*;

use crate::aot::common::{
    REG_A, REG_B_W, REG_C, REG_CALLER, REG_D, REG_D_W, REG_EXECUTOR_PTR, REG_FIRST_ARG,
    REG_RETURN_VAL,
};
use crate::aot::emit;
use crate::aot::emit::{is_compilable, is_supported};
use crate::aot::error::AotError;
use crate::aot::host;
use crate::aot::host::{join, render, Label, Line, Op, Operand, Shift, Size};
use crate::aot::AotCompiler;
use crate::instruction::Instruction;
use crate::opcode::OpClass;

verus! {

/// Whether an instruction has a delay slot.
pub open spec fn delays(i: Instruction) -> bool {
    i.opcode.class() == OpClass::Branch || i.opcode.class() == OpClass::Jump
}

/// Whether every instruction with a delay slot, from a position on, is followed by another
/// instruction. An instruction in a delay slot has none of its own.
pub open spec fn slots_exist(instructions: Seq<Instruction>, i: int) -> bool
    decreases instructions.len() - i,
{
    if i < 0 || i >= instructions.len() {
        true
    } else if delays(instructions[i]) {
        i + 1 < instructions.len() && slots_exist(instructions, i + 2)
    } else {
        slots_exist(instructions, i + 1)
    }
}

/// The labels of the first `n` words of the address space.
pub open spec fn low_labels(n: int) -> Seq<Line>
    decreases n,
{
    if n <= 0 {
        Seq::empty()
    } else {
        low_labels(n - 1).push(Line::Here(Label::Pc(((n - 1) * 4) as u32)))
    }
}

/// The entries of the first `n` words from an address on.
pub open spec fn entries(base: int, n: int) -> Seq<Line>
    decreases n,
{
    if n <= 0 {
        Seq::empty()
    } else {
        entries(base, n - 1).push(Line::Entry((base + (n - 1) * 4) as u32))
    }
}

/// The labels of the words below an address.
fn low_labels_code(pc_base: u32) -> (r: Vec<Line>)
    ensures
        r@ == low_labels(pc_base as int / 4),
{
    let mut code: Vec<Line> = Vec::new();
    let mut i: u32 = 0;
    while i < pc_base / 4
        invariant
            i <= pc_base / 4,
            code@ == low_labels(i as int),
        decreases pc_base / 4 - i,
    {
        code.push(Line::Here(Label::Pc(i * 4)));
        i = i + 1;
    }
    code
}

/// The entries of `n` words from an address on.
fn entries_code(base: u32, n: usize) -> (r: Vec<Line>)
    requires
        base + n * 4 <= u32::MAX,
    ensures
        r@ == entries(base as int, n as int),
{
    let mut code: Vec<Line> = Vec::new();
    let mut i: usize = 0;
    while i < n
        invariant
            i <= n,
            base + n * 4 <= u32::MAX,
            code@ == entries(base as int, i as int),
        decreases n - i,
    {
        code.push(Line::Entry(base + (i as u32) * 4));
        i = i + 1;
    }
    code
}

impl AotCompiler {
    /// Whether the program can be compiled: it fits the address space, each of its instructions
    /// can be compiled, and every delay slot is filled.
    pub open spec fn compiles(&self) -> bool {
        &&& self.program.wf()
        &&& forall|i: int|
            0 <= i < self.program.instructions@.len() ==> emit::compilable(
                #[trigger] self.program.instructions@[i],
            )
        &&& slots_exist(self.program.instructions@, 0)
    }

    /// Whether the program can be compiled.
    pub fn can_compile(&self) -> (r: bool)
        ensures
            r == self.compiles(),
    {
        if !self.program.is_valid() {
            return false;
        }
        let n: usize = self.program.instructions.len();
        let mut i: usize = 0;
        while i < n
            invariant
                i <= n,
                n == self.program.instructions@.len(),
                forall|j: int|
                    0 <= j < i ==> emit::compilable(#[trigger] self.program.instructions@[j]),
            decreases n - i,
        {
            if !is_compilable(&self.program.instructions[i]) {
                return false;
            }
            i = i + 1;
        }
        let mut i: usize = 0;
        while i < n
            invariant
                i <= n,
                n == self.program.instructions@.len(),
                self.program.wf(),
                slots_exist(self.program.instructions@, 0) == slots_exist(
                    self.program.instructions@,
                    i as int,
                ),
            decreases n - i,
        {
            let instruction = &self.program.instructions[i];
            if instruction.is_branch_instruction() || instruction.is_jump_instruction() {
                if i + 1 >= n {
                    return false;
                }
                i = i + 2;
            } else {
                i = i + 1;
            }
        }
        true
    }

    /// Whether there is code for every instruction of the program.
    pub open spec fn supports_all(&self) -> bool {
        forall|i: int|
            0 <= i < self.program.instructions@.len() ==> emit::supported(
                #[trigger] self.program.instructions@[i],
            )
    }

    /// Whether there is code for every instruction of the program.
    pub(crate) fn can_support_all(&self) -> (r: bool)
        ensures
            r == self.supports_all(),
    {
        let mut i: usize = 0;
        while i < self.program.instructions.len()
            invariant
                i <= self.program.instructions@.len(),
                forall|j: int|
                    0 <= j < i ==> emit::supported(#[trigger] self.program.instructions@[j]),
            decreases self.program.instructions@.len() - i,
        {
            if !is_supported(&self.program.instructions[i]) {
                return false;
            }
            i = i + 1;
        }
        true
    }

    /// The address of the instruction with an index.
    pub open spec fn pc_of(&self, i: int) -> u32 {
        (self.program.pc_base + i * 4) as u32
    }

    /// The address behind the program.
    pub open spec fn end_pc(&self) -> u32 {
        self.pc_of(self.program.instructions@.len() as int)
    }

    /// What every program starts with, up to the point where its registers are saved.
    pub open spec fn entry_listing(&self) -> Seq<Line> {
        let code = Seq::<Line>::empty();
        let code = code.push(Line::Directive(".intel_syntax noprefix"));
        let code = code.push(Line::Directive(".code64"));
        let code = code.push(Line::Directive(".section .text"));
        let code = code.push(Line::Directive(".global asm_run"));
        let code = code.push(Line::Here(Label::Run));
        let code = code.push(Line::Note("push_external_registers"));
        let code = code + Self::push_external_registers_listing();
        let code = code.push(Line::Note("get params"));
        let code = code.push(Line::Op2(4, Op::Mov, Operand::R(REG_EXECUTOR_PTR), Operand::R(REG_FIRST_ARG)));
        let code = code.push(Line::Note("push_internal_registers"));
        let code = code + Self::push_internal_registers_listing();
        let code = code + self.address_space_start_listing();
        let code = code.push(Line::Note("Store the pointer to where `pc` is stored to the register"));
        let code = code.push(Line::Op2(4, Op::Mov, Operand::R(REG_FIRST_ARG), Operand::R(REG_EXECUTOR_PTR)));
        let code = code.push(Line::Op2(4, Op::Mov, Operand::R(REG_CALLER), Operand::H(self.host.get_pc)));
        let code = code.push(Line::Op1(4, Op::Call, Operand::R(REG_CALLER)));
        let code = code.push(Line::Op2(4, Op::Mov, self.next_pc(), Operand::R(REG_D_W)));
        let code = code.push(Line::Note("pop_internal_registers"));
        let code = code + Self::pop_internal_registers_listing();
        let code = code.push(Line::Note("load_xmm_regs"));
        let code = code + Self::load_xmm_regs_listing();
        code
    }

    /// What every program starts with, up to the point where its registers are saved.
    pub(crate) fn entry_code(&self) -> (r: Vec<Line>)
        ensures
            r@ == self.entry_listing(),
    {
        let mut code: Vec<Line> = Vec::new();
        code.push(Line::Directive(".intel_syntax noprefix"));
        code.push(Line::Directive(".code64"));
        code.push(Line::Directive(".section .text"));
        code.push(Line::Directive(".global asm_run"));
        code.push(Line::Here(Label::Run));
        code.push(Line::Note("push_external_registers"));
        join(&mut code, Self::push_external_registers_code());
        code.push(Line::Note("get params"));
        code.push(Line::Op2(4, Op::Mov, Operand::R(REG_EXECUTOR_PTR), Operand::R(REG_FIRST_ARG)));
        code.push(Line::Note("push_internal_registers"));
        join(&mut code, Self::push_internal_registers_code());
        join(&mut code, self.address_space_start_code());
        code.push(Line::Note("Store the pointer to where `pc` is stored to the register"));
        code.push(Line::Op2(4, Op::Mov, Operand::R(REG_FIRST_ARG), Operand::R(REG_EXECUTOR_PTR)));
        code.push(Line::Op2(4, Op::Mov, Operand::R(REG_CALLER), Operand::H(self.host.get_pc)));
        code.push(Line::Op1(4, Op::Call, Operand::R(REG_CALLER)));
        code.push(Line::Op2(4, Op::Mov, self.next_pc_operand(), Operand::R(REG_D_W)));
        code.push(Line::Note("pop_internal_registers"));
        join(&mut code, Self::pop_internal_registers_code());
        code.push(Line::Note("load_xmm_regs"));
        join(&mut code, Self::load_xmm_regs_code());
        code
    }

    /// The jump to the instruction to start with.
    pub open spec fn dispatch_listing(&self) -> Seq<Line> {
        let code = Seq::<Line>::empty();
        let code = code.push(Line::Note("execute"));
        let code = code.push(Line::Op2(3, Op::Lea, Operand::R(REG_C), Operand::At(Label::PcTable)));
        let code = code.push(Line::Op2(3, Op::Mov, Operand::R(REG_D_W), self.next_pc()));
        let code = code.push(Line::Op2(3, Op::Movsxd, Operand::R(REG_A), Operand::M(Size::Implied, REG_C, Shift::Index(REG_D))));
        let code = code.push(Line::Op2(3, Op::Add, Operand::R(REG_A), Operand::R(REG_C)));
        let code = code.push(Line::Op1(3, Op::Jmp, Operand::R(REG_A)));
        code
    }

    /// The jump to the instruction to start with.
    pub(crate) fn dispatch_code(&self) -> (r: Vec<Line>)
        ensures
            r@ == self.dispatch_listing(),
    {
        let mut code: Vec<Line> = Vec::new();
        code.push(Line::Note("execute"));
        code.push(Line::Op2(3, Op::Lea, Operand::R(REG_C), Operand::At(Label::PcTable)));
        code.push(Line::Op2(3, Op::Mov, Operand::R(REG_D_W), self.next_pc_operand()));
        code.push(Line::Op2(3, Op::Movsxd, Operand::R(REG_A), Operand::M(Size::Implied, REG_C, Shift::Index(REG_D))));
        code.push(Line::Op2(3, Op::Add, Operand::R(REG_A), Operand::R(REG_C)));
        code.push(Line::Op1(3, Op::Jmp, Operand::R(REG_A)));
        code
    }

    /// What comes before the code of an instruction.
    pub open spec fn pure_head_listing(&self, pc: u32) -> Seq<Line> {
        let code = Seq::<Line>::empty();
        let code = code.push(Line::Here(Label::Pc(pc)));
        let code = code.push(Line::Op2(4, Op::Cmp, self.next_pc(), Operand::I(self.end_pc() as u64)));
        let code = code.push(Line::Op1(4, Op::Jae, Operand::To(Label::RunEnd)));
        let code = code.push(Line::Op2(4, Op::Mov, self.next_pc(), Operand::I(pc.wrapping_add(4) as u64)));
        code
    }

    /// What comes before the code of an instruction.
    fn pure_head_code(&self, pc: u32) -> (r: Vec<Line>)
        requires
            self.program.wf(),
        ensures
            r@ == self.pure_head_listing(pc),
    {
        let mut code: Vec<Line> = Vec::new();
        code.push(Line::Here(Label::Pc(pc)));
        code.push(Line::Op2(4, Op::Cmp, self.next_pc_operand(), Operand::I(self.program.pc(self.program.instructions.len()) as u64)));
        code.push(Line::Op1(4, Op::Jae, Operand::To(Label::RunEnd)));
        code.push(Line::Op2(4, Op::Mov, self.next_pc_operand(), Operand::I(pc.wrapping_add(4) as u64)));
        code
    }

    /// What comes before the code of an instruction in a delay slot.
    pub open spec fn pure_slot_head_listing(&self, pc: u32) -> Seq<Line> {
        let code = Seq::<Line>::empty();
        let code = code.push(Line::Here(Label::Pc(pc)));
        let code = code.push(Line::Op2(4, Op::Mov, self.next_pc(), Operand::I(pc.wrapping_add(4) as u64)));
        code
    }

    /// What comes before the code of an instruction in a delay slot.
    fn pure_slot_head_code(&self, pc: u32) -> (r: Vec<Line>)
        ensures
            r@ == self.pure_slot_head_listing(pc),
    {
        let mut code: Vec<Line> = Vec::new();
        code.push(Line::Here(Label::Pc(pc)));
        code.push(Line::Op2(4, Op::Mov, self.next_pc_operand(), Operand::I(pc.wrapping_add(4) as u64)));
        code
    }

    /// What comes before the code of an instruction.
    pub open spec fn head(&self, metered: bool, pc: u32) -> Seq<Line> {
        if metered {
            self.metered_head_listing(pc)
        } else {
            self.pure_head_listing(pc)
        }
    }

    /// What comes before the code of an instruction in a delay slot.
    pub open spec fn slot_head(&self, metered: bool, pc: u32) -> Seq<Line> {
        if metered {
            self.metered_slot_head_listing(pc)
        } else {
            self.pure_slot_head_listing(pc)
        }
    }

    /// The code of the instruction with an index, and of its delay slot where it has one. The
    /// delay slot comes first: what the instruction itself does last is to leave.
    #[verifier::opaque]
    pub open spec fn step(&self, metered: bool, i: int) -> Seq<Line> {
        let instruction = self.program.instructions@[i];
        let pc = self.pc_of(i);
        if delays(instruction) {
            self.head(metered, pc) + self.slot_head(metered, self.pc_of(i + 1))
                + self.instruction_listing(self.program.instructions@[i + 1], self.pc_of(i + 1))
                + self.instruction_listing(instruction, pc)
        } else {
            self.head(metered, pc) + self.instruction_listing(instruction, pc)
        }
    }

    /// The code of the instructions from an index on.
    pub open spec fn body(&self, metered: bool, i: int) -> Seq<Line>
        decreases
            (if i < self.program.instructions@.len() {
                self.program.instructions@.len() - i
            } else {
                0
            }),
    {
        if i < 0 || i >= self.program.instructions@.len() {
            Seq::empty()
        } else if delays(self.program.instructions@[i]) {
            self.step(metered, i) + self.body(metered, i + 2)
        } else {
            self.step(metered, i) + self.body(metered, i + 1)
        }
    }

    /// The code of the instruction with an index, and of its delay slot where it has one.
    fn step_code(&self, metered: bool, i: usize) -> (r: Vec<Line>)
        requires
            self.compiles(),
            self.supports_all(),
            metered ==> self.max_syscall_cycles <= self.shard_size,
            i < self.program.instructions@.len(),
            delays(self.program.instructions@[i as int]) ==> i + 1
                < self.program.instructions@.len(),
        ensures
            r@ == self.step(metered, i as int),
    {
        reveal(AotCompiler::step);
        let instruction = &self.program.instructions[i];
        let pc: u32 = self.program.pc(i);
        let mut code = if metered {
            self.metered_head_code(pc)
        } else {
            self.pure_head_code(pc)
        };
        if instruction.is_branch_instruction() || instruction.is_jump_instruction() {
            let slot = &self.program.instructions[i + 1];
            let slot_pc: u32 = self.program.pc(i + 1);
            let head = if metered {
                self.metered_slot_head_code(slot_pc)
            } else {
                self.pure_slot_head_code(slot_pc)
            };
            join(&mut code, head);
            join(&mut code, self.instruction_code(slot, slot_pc));
            join(&mut code, self.instruction_code(instruction, pc));
        } else {
            join(&mut code, self.instruction_code(instruction, pc));
        }
        code
    }

    /// The code of all instructions.
    pub(crate) fn body_code(&self, metered: bool) -> (r: Vec<Line>)
        requires
            self.compiles(),
            self.supports_all(),
            metered ==> self.max_syscall_cycles <= self.shard_size,
        ensures
            r@ == self.body(metered, 0),
    {
        let mut code: Vec<Line> = Vec::new();
        let mut i: usize = 0;
        assert(code@ + self.body(metered, 0) =~= self.body(metered, 0));
        while i < self.program.instructions.len()
            invariant
                i <= self.program.instructions@.len(),
                self.compiles(),
                self.supports_all(),
                metered ==> self.max_syscall_cycles <= self.shard_size,
                slots_exist(self.program.instructions@, i as int),
                code@ + self.body(metered, i as int) == self.body(metered, 0),
            decreases self.program.instructions@.len() - i,
        {
            let ghost before = code@;
            let ghost now = i as int;
            let instruction = &self.program.instructions[i];
            join(&mut code, self.step_code(metered, i));
            if instruction.is_branch_instruction() || instruction.is_jump_instruction() {
                i = i + 2;
            } else {
                i = i + 1;
            }
            assert(code@ + self.body(metered, i as int) =~= before + (self.step(metered, now)
                + self.body(metered, i as int)));
        }
        assert(code@ + self.body(metered, i as int) =~= code@);
        code
    }

    /// The table of the code addresses.
    pub open spec fn table(&self) -> Seq<Line> {
        seq![Line::Directive(".section .rodata"), Line::Here(Label::PcTable)] + entries(
            0,
            self.program.pc_base as int / 4,
        ) + entries(self.program.pc_base as int, self.program.instructions@.len() as int)
    }

    /// The table of the code addresses.
    pub(crate) fn table_code(&self) -> (r: Vec<Line>)
        requires
            self.program.wf(),
        ensures
            r@ == self.table(),
    {
        let mut code: Vec<Line> = Vec::new();
        code.push(Line::Directive(".section .rodata"));
        code.push(Line::Here(Label::PcTable));
        join(&mut code, entries_code(0, (self.program.pc_base / 4) as usize));
        join(&mut code, entries_code(self.program.pc_base, self.program.instructions.len()));
        assert(code@ =~= self.table());
        code
    }

    /// The end of the run: the registers and the program counter go back to the executor.
    pub open spec fn pure_exit_listing(&self) -> Seq<Line> {
        let code = Seq::<Line>::empty();
        let code = code.push(Line::Here(Label::RunEnd));
        let code = code.push(Line::Note("save_xmm_regs"));
        let code = code + Self::save_xmm_regs_listing();
        let code = code.push(Line::Note("call set_pc()"));
        let code = code.push(Line::Op2(4, Op::Mov, Operand::R(REG_FIRST_ARG), Operand::R(REG_EXECUTOR_PTR)));
        let code = code.push(Line::Op2(4, Op::Mov, Operand::R(REG_B_W), self.next_pc()));
        let code = code.push(Line::Op2(4, Op::Mov, Operand::R(REG_CALLER), Operand::H(self.host.set_pc)));
        let code = code.push(Line::Op1(4, Op::Call, Operand::R(REG_CALLER)));
        let code = code.push(Line::Note("pop_external_registers"));
        let code = code + Self::pop_external_registers_listing();
        let code = code.push(Line::Op2(4, Op::Xor, Operand::R(REG_RETURN_VAL), Operand::R(REG_RETURN_VAL)));
        let code = code.push(Line::Op0(4, Op::Ret));
        code
    }

    /// The end of the run: the registers and the program counter go back to the executor.
    fn pure_exit_code(&self) -> (r: Vec<Line>)
        ensures
            r@ == self.pure_exit_listing(),
    {
        let mut code: Vec<Line> = Vec::new();
        code.push(Line::Here(Label::RunEnd));
        code.push(Line::Note("save_xmm_regs"));
        join(&mut code, Self::save_xmm_regs_code());
        code.push(Line::Note("call set_pc()"));
        code.push(Line::Op2(4, Op::Mov, Operand::R(REG_FIRST_ARG), Operand::R(REG_EXECUTOR_PTR)));
        code.push(Line::Op2(4, Op::Mov, Operand::R(REG_B_W), self.next_pc_operand()));
        code.push(Line::Op2(4, Op::Mov, Operand::R(REG_CALLER), Operand::H(self.host.set_pc)));
        code.push(Line::Op1(4, Op::Call, Operand::R(REG_CALLER)));
        code.push(Line::Note("pop_external_registers"));
        join(&mut code, Self::pop_external_registers_code());
        code.push(Line::Op2(4, Op::Xor, Operand::R(REG_RETURN_VAL), Operand::R(REG_RETURN_VAL)));
        code.push(Line::Op0(4, Op::Ret));
        code
    }

    /// The code that runs the program.
    pub open spec fn pure_listing(&self) -> Seq<Line> {
        self.entry_listing() + self.sync_clk_to_reg_listing()
            + self.dispatch_listing() + low_labels(
            self.program.pc_base as int / 4,
        ) + self.body(false, 0) + self.pure_exit_listing() + self.table()
    }

    /// The assembly that runs the program.
    pub fn create_pure_asm(&self) -> (r: Result<String, AotError>)
        requires
            self.compiles(),
        ensures
            match r {
                Ok(text) => self.supports_all() && text@ == host::listing_text(self.pure_listing()),
                Err(e) => !self.supports_all() && e is NotSupported,
            },
    {
        if !self.can_support_all() {
            return Err(AotError::NotSupported);
        }
        let mut code = self.entry_code();
        join(&mut code, self.sync_clk_to_reg_code());
        join(&mut code, self.dispatch_code());
        join(&mut code, low_labels_code(self.program.pc_base));
        join(&mut code, self.body_code(false));
        join(&mut code, self.pure_exit_code());
        join(&mut code, self.table_code());
        Ok(render(&code))
    }

    /// The labels of the words below the program.
    pub(crate) fn labels_below_code(&self) -> (r: Vec<Line>)
        ensures
            r@ == low_labels(self.program.pc_base as int / 4),
    {
        low_labels_code(self.program.pc_base)
    }
}

} // verus!
