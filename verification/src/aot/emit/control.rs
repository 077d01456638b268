//! The code of branches and jumps.
use vstd::prelude::*;

use crate::aot::emit;
use crate::aot::common;
use crate::aot::common::{fetch_register, stow_register, REG_A, REG_A_W, REG_B_W, REG_C};
use crate::aot::error::AotError;
use crate::aot::host;
use crate::aot::host::{join, render, Label, Line, Op, Operand, Reg, Shift, Size, Width};
use crate::aot::AotCompiler;
use crate::events::MemoryAccessPosition;
use crate::instruction::Instruction;
use crate::opcode::{OpClass, Opcode};
use crate::state::ExecutorMode;

verus! {

impl AotCompiler {

    /// The jump of the host that is taken exactly when a branch of the guest is.
    pub open spec fn branch_jump(opcode: Opcode) -> Op {
        match opcode {
            Opcode::BEQ => Op::Je,
            Opcode::BNE => Op::Jne,
            Opcode::BLTZ => Op::Js,
            Opcode::BLEZ => Op::Jle,
            Opcode::BGTZ => Op::Jg,
            _ => Op::Jns,
        }
    }

    /// The jump of the host that is taken exactly when a branch of the guest is.
    fn branch_jump_operation(opcode: Opcode) -> (r: Op)
        ensures
            r == Self::branch_jump(opcode),
    {
        match opcode {
            Opcode::BEQ => Op::Je,
            Opcode::BNE => Op::Jne,
            Opcode::BLTZ => Op::Js,
            Opcode::BLEZ => Op::Jle,
            Opcode::BGTZ => Op::Jg,
            _ => Op::Jns,
        }
    }

    /// The code that compares what a branch compares.
    pub open spec fn branch_test_listing(instruction: Instruction) -> Seq<Line> {
        let code = Seq::<Line>::empty();
        let a: u8 = instruction.op_a;
        let b: u8 = instruction.op_b as u8;
        let reg_a = common::place(a, REG_A_W, false);
        let code = code + common::fetch(a, REG_A_W, false);
        let code = if !instruction.opcode.one_operand() {
            let reg_b = common::place(b, REG_B_W, false);
            let code = code + common::fetch(b, REG_B_W, false);
            let code = code.push(Line::Op2(3, Op::Cmp, Operand::R(reg_a), Operand::R(reg_b)));
            code
        } else {
            let code = code.push(Line::Op2(3, Op::Test, Operand::R(reg_a), Operand::R(reg_a)));
            code
        };
        code
    }

    /// The code that compares what a branch compares.
    fn branch_test_code(instruction: &Instruction) -> (r: Vec<Line>)
        requires
            emit::compilable(*instruction),
            instruction.opcode.class() == OpClass::Branch,
        ensures
            r@ == Self::branch_test_listing(*instruction),
    {
        let mut code: Vec<Line> = Vec::new();
        let a: u8 = instruction.op_a;
        let b: u8 = instruction.op_b as u8;
        let (reg_a, fetched) = fetch_register(a, REG_A_W, false);
        join(&mut code, fetched);
        if !instruction.opcode.only_one_operand() {
            let (reg_b, fetched) = fetch_register(b, REG_B_W, false);
            join(&mut code, fetched);
            code.push(Line::Op2(3, Op::Cmp, Operand::R(reg_a), Operand::R(reg_b)));
        } else {
            code.push(Line::Op2(3, Op::Test, Operand::R(reg_a), Operand::R(reg_a)));
        }
        code
    }

    /// The code that counts a branch and notes its register accesses. A comparison with zero counts
    /// the events of the instructions that it stands for.
    pub open spec fn branch_access_listing(&self, instruction: Instruction) -> Seq<Line> {
        let code = Seq::<Line>::empty();
        if self.executor_mode == ExecutorMode::Checkpoint {
            let code = code + self.event_count_listing(instruction.opcode, 1);
            let code = if instruction.opcode.one_operand() {
                let code = code + self.event_count_listing(Opcode::ADD, 1);
                let code = code + self.event_count_listing(Opcode::SLT, 2);
                code
            } else {
                code
            };
            let code = code + Self::access_register_meta_addr_listing();
            let code = if !instruction.opcode.one_operand() {
                let code = code + Self::access_register_meta_control_listing(instruction.op_b, MemoryAccessPosition::B);
                code
            } else {
                code
            };
            code + Self::access_register_meta_control_listing(instruction.op_a as u32, MemoryAccessPosition::A)
        } else {
            code
        }
    }

    /// The code that counts a branch and notes its register accesses.
    fn branch_access_code(&self, instruction: &Instruction) -> (r: Vec<Line>)
        ensures
            r@ == self.branch_access_listing(*instruction),
    {
        let mut code: Vec<Line> = Vec::new();
        if self.executor_mode == ExecutorMode::Checkpoint {
            join(&mut code, self.event_count_code(instruction.opcode, 1));
            if instruction.opcode.only_one_operand() {
                join(&mut code, self.event_count_code(Opcode::ADD, 1));
                join(&mut code, self.event_count_code(Opcode::SLT, 2));
            }
            join(&mut code, Self::access_register_meta_addr_code());
            if !instruction.opcode.only_one_operand() {
                join(&mut code, Self::access_register_meta_control_code(instruction.op_b, MemoryAccessPosition::B));
            }
            join(&mut code, Self::access_register_meta_control_code(instruction.op_a as u32, MemoryAccessPosition::A));
        }
        code
    }

    /// The code of a branch. It stands behind the code of the delay slot.
    pub open spec fn branch_listing(&self, instruction: Instruction, pc: u32) -> Seq<Line> {
        let code = self.branch_access_listing(instruction) + Self::branch_test_listing(instruction);
        let next_next_pc: u32 = pc.wrapping_add(4).wrapping_add(instruction.op_c);
        let jump = Self::branch_jump(instruction.opcode);
        code.push(Line::Op1(3, jump, Operand::To(Label::Pc(next_next_pc))))
    }

    /// The code of a branch. It stands behind the code of the delay slot.
    pub(crate) fn branch_code(&self, instruction: &Instruction, pc: u32) -> (r: Vec<Line>)
        requires
            emit::compilable(*instruction),
            instruction.opcode.class() == OpClass::Branch,
        ensures
            r@ == self.branch_listing(*instruction, pc),
    {
        let mut code: Vec<Line> = self.branch_access_code(instruction);
        join(&mut code, Self::branch_test_code(instruction));
        let next_next_pc: u32 = pc.wrapping_add(4).wrapping_add(instruction.op_c);
        let jump = Self::branch_jump_operation(instruction.opcode);
        code.push(Line::Op1(3, jump, Operand::To(Label::Pc(next_next_pc))));
        code
    }

    /// The assembly of a branch.
    pub fn generate_branch_asm(&self, instruction: &Instruction, pc: u32) -> (r: Result<String, AotError>)
        requires
            emit::compilable(*instruction),
            instruction.opcode.class() == OpClass::Branch,
        ensures
            r is Ok && r->Ok_0@ == host::listing_text(self.branch_listing(*instruction, pc)),
    {
        Ok(render(&self.branch_code(instruction, pc)))
    }

    /// The code that counts a jump and notes its register accesses.
    pub open spec fn jump_access_listing(&self, instruction: Instruction) -> Seq<Line> {
        let code = Seq::<Line>::empty();
        if self.executor_mode == ExecutorMode::Checkpoint {
            let code = code + self.event_count_listing(instruction.opcode, 1);
            let code = if instruction.opcode == Opcode::JumpDirect {
                let code = code + self.event_count_listing(Opcode::ADD, 1);
                code
            } else {
                code
            };
            let code = code + Self::access_register_meta_addr_listing();
            let code = if instruction.opcode == Opcode::Jump {
                let code = code + Self::access_register_meta_control_listing(instruction.op_b, MemoryAccessPosition::B);
                code
            } else {
                code
            };
            code + Self::access_register_meta_control_listing(instruction.op_a as u32, MemoryAccessPosition::A)
        } else {
            code
        }
    }

    /// The code that counts a jump and notes its register accesses.
    fn jump_access_code(&self, instruction: &Instruction) -> (r: Vec<Line>)
        ensures
            r@ == self.jump_access_listing(*instruction),
    {
        let mut code: Vec<Line> = Vec::new();
        if self.executor_mode == ExecutorMode::Checkpoint {
            join(&mut code, self.event_count_code(instruction.opcode, 1));
            if instruction.opcode == Opcode::JumpDirect {
                join(&mut code, self.event_count_code(Opcode::ADD, 1));
            }
            join(&mut code, Self::access_register_meta_addr_code());
            if instruction.opcode == Opcode::Jump {
                join(&mut code, Self::access_register_meta_control_code(instruction.op_b, MemoryAccessPosition::B));
            }
            join(&mut code, Self::access_register_meta_control_code(instruction.op_a as u32, MemoryAccessPosition::A));
        }
        code
    }

    /// Whether a jump reads its target before it links: where the target is in the register that is
    /// to hold the return address.
    pub open spec fn reads_target_early(instruction: Instruction) -> bool {
        instruction.opcode == Opcode::Jump && instruction.op_a != 0 && instruction.op_a
            == instruction.op_b as u8
    }

    /// The code that links and jumps.
    pub open spec fn jump_work_listing(instruction: Instruction, pc: u32) -> Seq<Line> {
        let code = Seq::<Line>::empty();
        let next_pc: u32 = pc.wrapping_add(4);
        let return_pc: u32 = next_pc.wrapping_add(4);
        let a: u8 = instruction.op_a;
        let b: u8 = instruction.op_b as u8;
        let early: bool = Self::reads_target_early(instruction);
        let code = if early {
            code + common::fetch(b, REG_B_W, true)
        } else {
            code
        };
        let code = if a != 0 {
            let code = code.push(Line::Op2(3, Op::Mov, Operand::R(REG_A_W), Operand::I(return_pc as u64)));
            let code = code + common::stow(REG_A_W, a);
            code
        } else {
            code
        };
        let code = match instruction.opcode {
            Opcode::Jump => {
                let gpr_reg_b = common::place(b, REG_B_W, early);
                let code = if early {
                    code
                } else {
                    code + common::fetch(b, REG_B_W, false)
                };
                let gpr_reg_b_64 = Reg::of(gpr_reg_b.gpr(), Width::W64);
                let code = code.push(Line::Op2(3, Op::Lea, Operand::R(REG_C), Operand::At(Label::PcTable)));
                let code = code.push(Line::Op2(3, Op::Movsxd, Operand::R(REG_A), Operand::M(Size::Implied, REG_C, Shift::Index(gpr_reg_b_64))));
                let code = code.push(Line::Op2(3, Op::Add, Operand::R(REG_A), Operand::R(REG_C)));
                let code = code.push(Line::Op1(3, Op::Jmp, Operand::R(REG_A)));
                code
            },
            Opcode::Jumpi => {
                let code = code.push(Line::Op1(3, Op::Jmp, Operand::To(Label::Pc(instruction.op_b))));
                code
            },
            _ => {
                let code = code + common::fetch(b, REG_B_W, false);
                let code = code.push(Line::Op1(3, Op::Jmp, Operand::To(Label::Pc(next_pc.wrapping_add(instruction.op_b)))));
                code
            },
        };
        code
    }

    /// The code that links and jumps.
    fn jump_work_code(instruction: &Instruction, pc: u32) -> (r: Vec<Line>)
        requires
            emit::compilable(*instruction),
            instruction.opcode.class() == OpClass::Jump,
        ensures
            r@ == Self::jump_work_listing(*instruction, pc),
    {
        let mut code: Vec<Line> = Vec::new();
        let next_pc: u32 = pc.wrapping_add(4);
        let return_pc: u32 = next_pc.wrapping_add(4);
        let a: u8 = instruction.op_a;
        let b: u8 = instruction.op_b as u8;
        let early: bool = instruction.opcode == Opcode::Jump && a != 0 && a == b;
        if early {
            let (_place, fetched) = fetch_register(b, REG_B_W, true);
            join(&mut code, fetched);
        }
        if a != 0 {
            code.push(Line::Op2(3, Op::Mov, Operand::R(REG_A_W), Operand::I(return_pc as u64)));
            join(&mut code, stow_register(REG_A_W, a));
        }
        match instruction.opcode {
            Opcode::Jump => {
                let (gpr_reg_b, fetched) = fetch_register(b, REG_B_W, early);
                if !early {
                    join(&mut code, fetched);
                }
                let gpr_reg_b_64 = gpr_reg_b.part(Width::W64);
                code.push(Line::Op2(3, Op::Lea, Operand::R(REG_C), Operand::At(Label::PcTable)));
                code.push(Line::Op2(3, Op::Movsxd, Operand::R(REG_A), Operand::M(Size::Implied, REG_C, Shift::Index(gpr_reg_b_64))));
                code.push(Line::Op2(3, Op::Add, Operand::R(REG_A), Operand::R(REG_C)));
                code.push(Line::Op1(3, Op::Jmp, Operand::R(REG_A)));
            },
            Opcode::Jumpi => {
                code.push(Line::Op1(3, Op::Jmp, Operand::To(Label::Pc(instruction.op_b))));
            },
            _ => {
                let (_place, fetched) = fetch_register(b, REG_B_W, false);
                join(&mut code, fetched);
                code.push(Line::Op1(3, Op::Jmp, Operand::To(Label::Pc(next_pc.wrapping_add(instruction.op_b)))));
            },
        }
        code
    }

    /// The code of a jump. It stands behind the code of the delay slot.
    pub open spec fn jump_listing(&self, instruction: Instruction, pc: u32) -> Seq<Line> {
        self.jump_access_listing(instruction) + Self::jump_work_listing(instruction, pc)
    }

    /// The code of a jump. It stands behind the code of the delay slot.
    pub(crate) fn jump_code(&self, instruction: &Instruction, pc: u32) -> (r: Vec<Line>)
        requires
            emit::compilable(*instruction),
            instruction.opcode.class() == OpClass::Jump,
        ensures
            r@ == self.jump_listing(*instruction, pc),
    {
        let mut code: Vec<Line> = self.jump_access_code(instruction);
        join(&mut code, Self::jump_work_code(instruction, pc));
        code
    }

    /// The assembly of a jump.
    pub fn generate_jump_asm(&self, instruction: &Instruction, pc: u32) -> (r: Result<String, AotError>)
        requires
            emit::compilable(*instruction),
            instruction.opcode.class() == OpClass::Jump,
        ensures
            r is Ok && r->Ok_0@ == host::listing_text(self.jump_listing(*instruction, pc)),
    {
        Ok(render(&self.jump_code(instruction, pc)))
    }
}

} // verus!
