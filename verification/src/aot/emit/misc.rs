//! The code of the instructions that the executor carries out.
use vstd::prelude::*;

use crate::aot::common::{REG_CALLER, REG_EXECUTOR_PTR, REG_FIRST_ARG, REG_SECOND_ARG};
use crate::aot::error::AotError;
use crate::aot::host;
use crate::aot::host::{join, render, Line, Op, Operand};
use crate::aot::AotCompiler;
use crate::events::MemoryAccessPosition;
use crate::instruction::Instruction;
use crate::opcode::{OpClass, Opcode};
use crate::register::Register;
use crate::state::ExecutorMode;

verus! {

impl AotCompiler {

    /// The code of a conditional move.
    pub open spec fn mov_cond_listing(&self, instruction: Instruction, pc: u32) -> Seq<Line> {
        let code = Seq::<Line>::empty();
        let code = if self.executor_mode == ExecutorMode::Checkpoint {
            let code = code + self.event_count_listing(instruction.opcode, 1);
            let code = code + self.event_count_listing(Opcode::ADD, 1);
            let code = code + Self::access_register_meta_addr_listing();
            let code = code + Self::access_register_meta_listing(instruction.op_c, MemoryAccessPosition::C);
            let code = code + Self::access_register_meta_listing(instruction.op_b, MemoryAccessPosition::B);
            let code = code + Self::access_register_meta_listing(instruction.op_a as u32, MemoryAccessPosition::A);
            code
        } else {
            code
        };
        let instruction_ptr: u64 = self.instruction_address(pc);
        let code = code + Self::before_call_listing();
        let code = code.push(Line::Op2(3, Op::Mov, Operand::R(REG_FIRST_ARG), Operand::R(REG_EXECUTOR_PTR)));
        let code = code.push(Line::Op2(3, Op::Mov, Operand::R(REG_SECOND_ARG), Operand::H(instruction_ptr)));
        let code = code.push(Line::Op2(3, Op::Mov, Operand::R(REG_CALLER), Operand::H(self.host.execute_mov_cond)));
        let code = code.push(Line::Op1(3, Op::Call, Operand::R(REG_CALLER)));
        let code = code + Self::after_call_listing();
        code
    }

    /// The code of a conditional move.
    pub(crate) fn mov_cond_code(&self, instruction: &Instruction, pc: u32) -> (r: Vec<Line>)
        requires
            instruction.opcode.class() == OpClass::MovCond,
        ensures
            r@ == self.mov_cond_listing(*instruction, pc),
    {
        let mut code: Vec<Line> = Vec::new();
        if self.executor_mode == ExecutorMode::Checkpoint {
            join(&mut code, self.event_count_code(instruction.opcode, 1));
            join(&mut code, self.event_count_code(Opcode::ADD, 1));
            join(&mut code, Self::access_register_meta_addr_code());
            join(&mut code, Self::access_register_meta_code(instruction.op_c, MemoryAccessPosition::C));
            join(&mut code, Self::access_register_meta_code(instruction.op_b, MemoryAccessPosition::B));
            join(&mut code, Self::access_register_meta_code(instruction.op_a as u32, MemoryAccessPosition::A));
        }
        let instruction_ptr: u64 = self.instruction_ptr(pc);
        join(&mut code, Self::before_call_code());
        code.push(Line::Op2(3, Op::Mov, Operand::R(REG_FIRST_ARG), Operand::R(REG_EXECUTOR_PTR)));
        code.push(Line::Op2(3, Op::Mov, Operand::R(REG_SECOND_ARG), Operand::H(instruction_ptr)));
        code.push(Line::Op2(3, Op::Mov, Operand::R(REG_CALLER), Operand::H(self.host.execute_mov_cond)));
        code.push(Line::Op1(3, Op::Call, Operand::R(REG_CALLER)));
        join(&mut code, Self::after_call_code());
        code
    }

    /// The assembly of a conditional move.
    pub fn generate_mov_cond_asm(&self, instruction: &Instruction, pc: u32) -> (r: Result<String, AotError>)
        requires
            instruction.opcode.class() == OpClass::MovCond,
        ensures
            r is Ok && r->Ok_0@ == host::listing_text(self.mov_cond_listing(*instruction, pc)),
    {
        Ok(render(&self.mov_cond_code(instruction, pc)))
    }

    /// The function of the executor that carries out an instruction.
    pub open spec fn misc_handler(&self, opcode: Opcode) -> u64 {
        match opcode {
            Opcode::MADDU => self.host.execute_maddu,
            Opcode::MSUBU => self.host.execute_msubu,
            Opcode::MADD => self.host.execute_madd,
            Opcode::MSUB => self.host.execute_msub,
            Opcode::WSBH => self.host.execute_wsbh,
            Opcode::EXT => self.host.execute_ext,
            Opcode::SEXT => self.host.execute_sext,
            Opcode::INS => self.host.execute_ins,
            _ => self.host.execute_teq,
        }
    }

    /// The function of the executor that carries out an instruction.
    fn misc_handler_ptr(&self, opcode: Opcode) -> (r: u64)
        ensures
            r == self.misc_handler(opcode),
    {
        match opcode {
            Opcode::MADDU => self.host.execute_maddu,
            Opcode::MSUBU => self.host.execute_msubu,
            Opcode::MADD => self.host.execute_madd,
            Opcode::MSUB => self.host.execute_msub,
            Opcode::WSBH => self.host.execute_wsbh,
            Opcode::EXT => self.host.execute_ext,
            Opcode::SEXT => self.host.execute_sext,
            Opcode::INS => self.host.execute_ins,
            _ => self.host.execute_teq,
        }
    }

    /// The code of a bit-field, trap or multiply-accumulate instruction.
    pub open spec fn misc_listing(&self, instruction: Instruction, pc: u32) -> Seq<Line> {
        let code = Seq::<Line>::empty();
        let code = if self.executor_mode == ExecutorMode::Checkpoint {
            let code = code + self.event_count_listing(instruction.opcode, 1);
            let code = match instruction.opcode {
                Opcode::EXT => {
                    let code = code + self.event_count_listing(Opcode::SLL, 1);
                    let code = code + self.event_count_listing(Opcode::SRL, 1);
                    code
                },
                Opcode::MADDU | Opcode::MSUBU => {
                    let code = code + self.event_count_listing(Opcode::MULTU, 1);
                    code
                },
                Opcode::INS => {
                    let code = code + self.event_count_listing(Opcode::ROR, 2);
                    let code = code + self.event_count_listing(Opcode::SLL, 1);
                    let code = code + self.event_count_listing(Opcode::SRL, 1);
                    let code = code + self.event_count_listing(Opcode::ADD, 1);
                    code
                },
                _ => {
                    code
                },
            };
            let code = code + Self::access_register_meta_addr_listing();
            let code = match instruction.opcode {
                Opcode::MADDU | Opcode::MSUBU | Opcode::MADD | Opcode::MSUB => {
                    let code = code + Self::access_register_meta_listing(instruction.op_c, MemoryAccessPosition::C);
                    let code = code + Self::access_register_meta_listing(instruction.op_b, MemoryAccessPosition::B);
                    let code = code + Self::access_register_meta_listing(Register::LO.number() as u32, MemoryAccessPosition::A);
                    let code = code + Self::access_register_meta_listing(Register::HI.number() as u32, MemoryAccessPosition::HI);
                    code
                },
                _ => {
                    let code = code + Self::access_register_meta_listing(instruction.op_b, MemoryAccessPosition::B);
                    let code = code + Self::access_register_meta_listing(instruction.op_a as u32, MemoryAccessPosition::A);
                    code
                },
            };
            code
        } else {
            code
        };
        let instruction_ptr: u64 = self.instruction_address(pc);
        let handler: u64 = self.misc_handler(instruction.opcode);
        let code = code + Self::before_call_listing();
        let code = code.push(Line::Op2(3, Op::Mov, Operand::R(REG_FIRST_ARG), Operand::R(REG_EXECUTOR_PTR)));
        let code = code.push(Line::Op2(3, Op::Mov, Operand::R(REG_SECOND_ARG), Operand::H(instruction_ptr)));
        let code = code.push(Line::Op2(3, Op::Mov, Operand::R(REG_CALLER), Operand::H(handler)));
        let code = code.push(Line::Op1(3, Op::Call, Operand::R(REG_CALLER)));
        let code = code + Self::after_call_listing();
        code
    }

    /// The code of a bit-field, trap or multiply-accumulate instruction.
    pub(crate) fn misc_code(&self, instruction: &Instruction, pc: u32) -> (r: Vec<Line>)
        requires
            instruction.opcode.class() == OpClass::Misc,
        ensures
            r@ == self.misc_listing(*instruction, pc),
    {
        let mut code: Vec<Line> = Vec::new();
        if self.executor_mode == ExecutorMode::Checkpoint {
            join(&mut code, self.event_count_code(instruction.opcode, 1));
            match instruction.opcode {
                Opcode::EXT => {
                    join(&mut code, self.event_count_code(Opcode::SLL, 1));
                    join(&mut code, self.event_count_code(Opcode::SRL, 1));
                },
                Opcode::MADDU | Opcode::MSUBU => {
                    join(&mut code, self.event_count_code(Opcode::MULTU, 1));
                },
                Opcode::INS => {
                    join(&mut code, self.event_count_code(Opcode::ROR, 2));
                    join(&mut code, self.event_count_code(Opcode::SLL, 1));
                    join(&mut code, self.event_count_code(Opcode::SRL, 1));
                    join(&mut code, self.event_count_code(Opcode::ADD, 1));
                },
                _ => {
                },
            }
            join(&mut code, Self::access_register_meta_addr_code());
            match instruction.opcode {
                Opcode::MADDU | Opcode::MSUBU | Opcode::MADD | Opcode::MSUB => {
                    join(&mut code, Self::access_register_meta_code(instruction.op_c, MemoryAccessPosition::C));
                    join(&mut code, Self::access_register_meta_code(instruction.op_b, MemoryAccessPosition::B));
                    join(&mut code, Self::access_register_meta_code(Register::LO.index() as u32, MemoryAccessPosition::A));
                    join(&mut code, Self::access_register_meta_code(Register::HI.index() as u32, MemoryAccessPosition::HI));
                },
                _ => {
                    join(&mut code, Self::access_register_meta_code(instruction.op_b, MemoryAccessPosition::B));
                    join(&mut code, Self::access_register_meta_code(instruction.op_a as u32, MemoryAccessPosition::A));
                },
            }
        }
        let instruction_ptr: u64 = self.instruction_ptr(pc);
        let handler: u64 = self.misc_handler_ptr(instruction.opcode);
        join(&mut code, Self::before_call_code());
        code.push(Line::Op2(3, Op::Mov, Operand::R(REG_FIRST_ARG), Operand::R(REG_EXECUTOR_PTR)));
        code.push(Line::Op2(3, Op::Mov, Operand::R(REG_SECOND_ARG), Operand::H(instruction_ptr)));
        code.push(Line::Op2(3, Op::Mov, Operand::R(REG_CALLER), Operand::H(handler)));
        code.push(Line::Op1(3, Op::Call, Operand::R(REG_CALLER)));
        join(&mut code, Self::after_call_code());
        code
    }

    /// The assembly of a bit-field, trap or multiply-accumulate instruction.
    pub fn generate_misc_asm(&self, instruction: &Instruction, pc: u32) -> (r: Result<String, AotError>)
        requires
            instruction.opcode.class() == OpClass::Misc,
        ensures
            r is Ok && r->Ok_0@ == host::listing_text(self.misc_listing(*instruction, pc)),
    {
        Ok(render(&self.misc_code(instruction, pc)))
    }
}

} // verus!
