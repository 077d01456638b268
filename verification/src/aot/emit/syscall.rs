//! The code of syscalls.
use vstd::prelude::*;

use crate::aot::common::{REG_A, REG_C, REG_CALLER, REG_D, REG_EXECUTOR_PTR, REG_FIRST_ARG, REG_RETURN_VAL, REG_SECOND_ARG, REG_THIRD_ARG, TMP};
use crate::aot::error::AotError;
use crate::aot::host;
use crate::aot::host::{join, render, Label, Line, Op, Operand, Shift, Size};
use crate::aot::AotCompiler;
use crate::events::MemoryAccessPosition;
use crate::instruction::Instruction;
use crate::opcode::OpClass;
use crate::register::Register;
use crate::state::ExecutorMode;

verus! {

impl AotCompiler {

    /// The code of a syscall. The executor answers zero when the program has exited, one when the program goes on behind the syscall, and else the address to go on at, with another memory.
    pub open spec fn syscall_listing(&self, instruction: Instruction, pc: u32) -> Seq<Line> {
        let code = Seq::<Line>::empty();
        let instruction_ptr: u64 = self.instruction_address(pc);
        let code = if self.executor_mode == ExecutorMode::Checkpoint {
            let code = code + Self::access_register_meta_addr_listing();
            let code = code + Self::access_register_meta_listing(Register::A1.number() as u32, MemoryAccessPosition::C);
            let code = code + Self::access_register_meta_listing(Register::A0.number() as u32, MemoryAccessPosition::B);
            let code = code + Self::access_register_meta_listing(Register::V0.number() as u32, MemoryAccessPosition::A);
            code
        } else {
            code
        };
        let code = code + self.sync_reg_to_clk_listing();
        let code = code.push(Line::Note("syscall"));
        let code = code + Self::before_call_listing();
        let code = code.push(Line::Op2(3, Op::Mov, Operand::R(REG_FIRST_ARG), Operand::R(REG_EXECUTOR_PTR)));
        let code = code.push(Line::Op2(3, Op::Mov, Operand::R(REG_SECOND_ARG), Operand::H(instruction_ptr)));
        let code = code.push(Line::Op2(3, Op::Mov, Operand::R(REG_THIRD_ARG), Operand::I(pc as u64)));
        let code = code.push(Line::Op2(3, Op::Mov, Operand::R(REG_CALLER), Operand::H(self.host.execute_syscall)));
        let code = code.push(Line::Op1(3, Op::Call, Operand::R(REG_CALLER)));
        let code = code.push(Line::Op3(3, Op::PinsrqSpaced, Operand::X(TMP), Operand::R(REG_RETURN_VAL), Operand::I(1)));
        let code = code + Self::after_call_listing();
        let code = code.push(Line::Op2(4, Op::Mov, self.next_pc(), Operand::I(pc.wrapping_add(4) as u64)));
        let code = code + self.sync_clk_to_reg_listing();
        let code = code.push(Line::Op3(3, Op::Pextrq, Operand::R(REG_D), Operand::X(TMP), Operand::I(1)));
        let code = code.push(Line::Op2(3, Op::Cmp, Operand::R(REG_D), Operand::I(1)));
        let code = code.push(Line::Op1(3, Op::Je, Operand::To(Label::EndSyscall(pc))));
        let code = code.push(Line::Op2(3, Op::Cmp, Operand::R(REG_D), Operand::I(0)));
        let code = code.push(Line::Op1(3, Op::Je, Operand::To(Label::RunEnd)));
        let code = code.push(Line::Note("push_internal_registers"));
        let code = code + Self::push_internal_registers_listing();
        let code = code + self.address_space_start_listing();
        let code = code.push(Line::Note("pop_internal_registers"));
        let code = code + Self::pop_internal_registers_listing();
        let code = code.push(Line::Note("load_xmm_regs"));
        let code = code + Self::load_xmm_regs_listing();
        let code = code.push(Line::Op2(3, Op::Lea, Operand::R(REG_C), Operand::At(Label::PcTable)));
        let code = code.push(Line::Op2(3, Op::Movsxd, Operand::R(REG_A), Operand::M(Size::Implied, REG_C, Shift::Index(REG_D))));
        let code = code.push(Line::Op2(3, Op::Add, Operand::R(REG_A), Operand::R(REG_C)));
        let code = code.push(Line::Op1(3, Op::Jmp, Operand::R(REG_A)));
        let code = code.push(Line::Here(Label::EndSyscall(pc)));
        code
    }

    /// The code of a syscall. The executor answers zero when the program has exited, one when the program goes on behind the syscall, and else the address to go on at, with another memory.
    pub(crate) fn syscall_code(&self, instruction: &Instruction, pc: u32) -> (r: Vec<Line>)
        requires
            instruction.opcode.class() == OpClass::Syscall,
        ensures
            r@ == self.syscall_listing(*instruction, pc),
    {
        let mut code: Vec<Line> = Vec::new();
        let instruction_ptr: u64 = self.instruction_ptr(pc);
        if self.executor_mode == ExecutorMode::Checkpoint {
            join(&mut code, Self::access_register_meta_addr_code());
            join(&mut code, Self::access_register_meta_code(Register::A1.index() as u32, MemoryAccessPosition::C));
            join(&mut code, Self::access_register_meta_code(Register::A0.index() as u32, MemoryAccessPosition::B));
            join(&mut code, Self::access_register_meta_code(Register::V0.index() as u32, MemoryAccessPosition::A));
        }
        join(&mut code, self.sync_reg_to_clk_code());
        code.push(Line::Note("syscall"));
        join(&mut code, Self::before_call_code());
        code.push(Line::Op2(3, Op::Mov, Operand::R(REG_FIRST_ARG), Operand::R(REG_EXECUTOR_PTR)));
        code.push(Line::Op2(3, Op::Mov, Operand::R(REG_SECOND_ARG), Operand::H(instruction_ptr)));
        code.push(Line::Op2(3, Op::Mov, Operand::R(REG_THIRD_ARG), Operand::I(pc as u64)));
        code.push(Line::Op2(3, Op::Mov, Operand::R(REG_CALLER), Operand::H(self.host.execute_syscall)));
        code.push(Line::Op1(3, Op::Call, Operand::R(REG_CALLER)));
        code.push(Line::Op3(3, Op::PinsrqSpaced, Operand::X(TMP), Operand::R(REG_RETURN_VAL), Operand::I(1)));
        join(&mut code, Self::after_call_code());
        code.push(Line::Op2(4, Op::Mov, self.next_pc_operand(), Operand::I(pc.wrapping_add(4) as u64)));
        join(&mut code, self.sync_clk_to_reg_code());
        code.push(Line::Op3(3, Op::Pextrq, Operand::R(REG_D), Operand::X(TMP), Operand::I(1)));
        code.push(Line::Op2(3, Op::Cmp, Operand::R(REG_D), Operand::I(1)));
        code.push(Line::Op1(3, Op::Je, Operand::To(Label::EndSyscall(pc))));
        code.push(Line::Op2(3, Op::Cmp, Operand::R(REG_D), Operand::I(0)));
        code.push(Line::Op1(3, Op::Je, Operand::To(Label::RunEnd)));
        code.push(Line::Note("push_internal_registers"));
        join(&mut code, Self::push_internal_registers_code());
        join(&mut code, self.address_space_start_code());
        code.push(Line::Note("pop_internal_registers"));
        join(&mut code, Self::pop_internal_registers_code());
        code.push(Line::Note("load_xmm_regs"));
        join(&mut code, Self::load_xmm_regs_code());
        code.push(Line::Op2(3, Op::Lea, Operand::R(REG_C), Operand::At(Label::PcTable)));
        code.push(Line::Op2(3, Op::Movsxd, Operand::R(REG_A), Operand::M(Size::Implied, REG_C, Shift::Index(REG_D))));
        code.push(Line::Op2(3, Op::Add, Operand::R(REG_A), Operand::R(REG_C)));
        code.push(Line::Op1(3, Op::Jmp, Operand::R(REG_A)));
        code.push(Line::Here(Label::EndSyscall(pc)));
        code
    }

    /// The assembly of a syscall.
    pub fn generate_syscall_asm(&self, instruction: &Instruction, pc: u32) -> (r: Result<String, AotError>)
        requires
            instruction.opcode.class() == OpClass::Syscall,
        ensures
            r is Ok && r->Ok_0@ == host::listing_text(self.syscall_listing(*instruction, pc)),
    {
        Ok(render(&self.syscall_code(instruction, pc)))
    }
}

} // verus!
