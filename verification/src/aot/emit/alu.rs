//! The code of arithmetic and logic instructions.
use vstd::prelude::*;

use crate::aot::emit;
use crate::aot::emit::is_supported;
use crate::aot::common;
use crate::aot::common::{fetch_register, overriding_register_or, stow_register, REG_A_W, REG_B_W, REG_C_W, REG_D_8L, REG_D_W, REG_HI, REG_LO, REG_ROR_8L, REG_ROR_W};
use crate::aot::error::AotError;
use crate::aot::host;
use crate::aot::host::{join, render, Line, Op, Operand};
use crate::aot::AotCompiler;
use crate::events::MemoryAccessPosition;
use crate::instruction::Instruction;
use crate::opcode::{OpClass, Opcode};
use crate::register::Register;
use crate::state::ExecutorMode;

verus! {

impl AotCompiler {

    /// The operation of the host that computes a simple operation of the guest.
    pub open spec fn base_op(opcode: Opcode) -> Op {
        match opcode {
            Opcode::ADD => Op::Add,
            Opcode::SUB => Op::Sub,
            Opcode::AND => Op::And,
            Opcode::OR => Op::Or,
            Opcode::XOR => Op::Xor,
            _ => Op::Imul,
        }
    }

    /// The operation of the host that computes a simple operation of the guest.
    fn base_operation(opcode: Opcode) -> (r: Op)
        ensures
            r == Self::base_op(opcode),
    {
        match opcode {
            Opcode::ADD => Op::Add,
            Opcode::SUB => Op::Sub,
            Opcode::AND => Op::And,
            Opcode::OR => Op::Or,
            Opcode::XOR => Op::Xor,
            _ => Op::Imul,
        }
    }

    /// Whether the code of an opcode is a single operation of the host.
    pub open spec fn is_base(opcode: Opcode) -> bool {
        opcode is ADD || opcode is SUB || opcode is AND || opcode is OR || opcode is XOR
            || opcode is MUL
    }

    /// The code of an addition, a subtraction, a bitwise operation or a multiplication to one word.
    pub open spec fn base_alu_listing(instruction: Instruction) -> Seq<Line> {
        let code = Seq::<Line>::empty();
        let asm_opcode = Self::base_op(instruction.opcode);
        let a: u8 = instruction.op_a;
        let b: u8 = instruction.op_b as u8;
        let c: u32 = instruction.op_c;
        let str_reg_a = common::overriding_or(a, REG_A_W);
        let code = if instruction.imm_c {
            let gpr_reg_b = common::place(b, str_reg_a, a != b);
            let code = code + common::fetch(b, str_reg_a, a != b);
            let code = code.push(Line::Op2(3, asm_opcode, Operand::R(gpr_reg_b), Operand::I(c as u64)));
            let code = code + common::stow(gpr_reg_b, a);
            code
        } else if a == c as u8 {
            let gpr_reg_c = common::place(c as u8, REG_C_W, true);
            let code = code + common::fetch(c as u8, REG_C_W, true);
            let gpr_reg_b = common::place(b, str_reg_a, true);
            let code = code + common::fetch(b, str_reg_a, true);
            let code = code.push(Line::Op2(3, asm_opcode, Operand::R(gpr_reg_b), Operand::R(gpr_reg_c)));
            let code = code + common::stow(gpr_reg_b, a);
            code
        } else {
            let gpr_reg_b = common::place(b, str_reg_a, true);
            let code = code + common::fetch(b, str_reg_a, true);
            let gpr_reg_c = common::place(c as u8, REG_C_W, false);
            let code = code + common::fetch(c as u8, REG_C_W, false);
            let code = code.push(Line::Op2(3, asm_opcode, Operand::R(gpr_reg_b), Operand::R(gpr_reg_c)));
            let code = code + common::stow(gpr_reg_b, a);
            code
        };
        code
    }

    /// The code of an addition, a subtraction, a bitwise operation or a multiplication to one word.
    fn base_alu_code(instruction: &Instruction) -> (r: Vec<Line>)
        requires
            instruction.op_a < common::HOSTED_REGISTERS,
            Self::is_base(instruction.opcode),
            emit::hosted(instruction.op_b),
            instruction.imm_c || emit::hosted(instruction.op_c),
        ensures
            r@ == Self::base_alu_listing(*instruction),
    {
        let mut code: Vec<Line> = Vec::new();
        let asm_opcode = Self::base_operation(instruction.opcode);
        let a: u8 = instruction.op_a;
        let b: u8 = instruction.op_b as u8;
        let c: u32 = instruction.op_c;
        let str_reg_a = overriding_register_or(a, REG_A_W);
        if instruction.imm_c {
            let (gpr_reg_b, fetched) = fetch_register(b, str_reg_a, a != b);
            join(&mut code, fetched);
            code.push(Line::Op2(3, asm_opcode, Operand::R(gpr_reg_b), Operand::I(c as u64)));
            join(&mut code, stow_register(gpr_reg_b, a));
        } else if a == c as u8 {
            let (gpr_reg_c, fetched) = fetch_register(c as u8, REG_C_W, true);
            join(&mut code, fetched);
            let (gpr_reg_b, fetched) = fetch_register(b, str_reg_a, true);
            join(&mut code, fetched);
            code.push(Line::Op2(3, asm_opcode, Operand::R(gpr_reg_b), Operand::R(gpr_reg_c)));
            join(&mut code, stow_register(gpr_reg_b, a));
        } else {
            let (gpr_reg_b, fetched) = fetch_register(b, str_reg_a, true);
            join(&mut code, fetched);
            let (gpr_reg_c, fetched) = fetch_register(c as u8, REG_C_W, false);
            join(&mut code, fetched);
            code.push(Line::Op2(3, asm_opcode, Operand::R(gpr_reg_b), Operand::R(gpr_reg_c)));
            join(&mut code, stow_register(gpr_reg_b, a));
        }
        code
    }

    /// The assembly of an addition, a subtraction, a bitwise operation or a multiplication to one word.
    pub fn generate_base_alu_asm(instruction: &Instruction) -> (r: Result<String, AotError>)
        requires
            instruction.op_a < common::HOSTED_REGISTERS,
            Self::is_base(instruction.opcode),
            emit::hosted(instruction.op_b),
            instruction.imm_c || emit::hosted(instruction.op_c),
        ensures
            r is Ok && r->Ok_0@ == host::listing_text(Self::base_alu_listing(*instruction)),
    {
        Ok(render(&Self::base_alu_code(instruction)))
    }

    /// The code of a negated disjunction. A third operand that is the destination too is read first.
    pub open spec fn nor_listing(instruction: Instruction) -> Seq<Line> {
        let code = Seq::<Line>::empty();
        let a: u8 = instruction.op_a;
        let b: u8 = instruction.op_b as u8;
        let c: u32 = instruction.op_c;
        let str_reg_a = common::overriding_or(a, REG_A_W);
        let gpr_reg_b = common::place(b, str_reg_a, true);
        let gpr_reg_c = common::place(c as u8, REG_C_W, a == c as u8);
        let code = if a == c as u8 {
            code + common::fetch(c as u8, REG_C_W, true) + common::fetch(b, str_reg_a, true)
        } else {
            code + common::fetch(b, str_reg_a, true) + common::fetch(c as u8, REG_C_W, false)
        };
        let code = code.push(Line::Op2(3, Op::Or, Operand::R(gpr_reg_b), Operand::R(gpr_reg_c)));
        let code = code.push(Line::Op1(3, Op::Not, Operand::R(gpr_reg_b)));
        let code = code + common::stow(gpr_reg_b, a);
        code
    }

    /// The code of a negated disjunction.
    fn nor_code(instruction: &Instruction) -> (r: Vec<Line>)
        requires
            instruction.op_a < common::HOSTED_REGISTERS,
            emit::hosted(instruction.op_b),
            emit::hosted(instruction.op_c),
        ensures
            r@ == Self::nor_listing(*instruction),
    {
        let mut code: Vec<Line> = Vec::new();
        let a: u8 = instruction.op_a;
        let b: u8 = instruction.op_b as u8;
        let c: u32 = instruction.op_c;
        let str_reg_a = overriding_register_or(a, REG_A_W);
        let same: bool = a == c as u8;
        let (gpr_reg_b, first) = fetch_register(b, str_reg_a, true);
        let (gpr_reg_c, second) = fetch_register(c as u8, REG_C_W, same);
        if same {
            join(&mut code, second);
            join(&mut code, first);
        } else {
            join(&mut code, first);
            join(&mut code, second);
        }
        code.push(Line::Op2(3, Op::Or, Operand::R(gpr_reg_b), Operand::R(gpr_reg_c)));
        code.push(Line::Op1(3, Op::Not, Operand::R(gpr_reg_b)));
        join(&mut code, stow_register(gpr_reg_b, a));
        code
    }

    /// The assembly of a negated disjunction.
    pub fn generate_nor_asm(instruction: &Instruction) -> (r: Result<String, AotError>)
        requires
            instruction.op_a < common::HOSTED_REGISTERS,
            emit::hosted(instruction.op_b),
            emit::hosted(instruction.op_c),
        ensures
            r is Ok && r->Ok_0@ == host::listing_text(Self::nor_listing(*instruction)),
    {
        Ok(render(&Self::nor_code(instruction)))
    }

    /// Whether an opcode is a shift or a rotation.
    pub open spec fn is_shift(opcode: Opcode) -> bool {
        opcode is SLL || opcode is SRL || opcode is SRA || opcode is ROR
    }

    /// The operation of the host that shifts by a fixed distance.
    pub open spec fn fixed_shift(opcode: Opcode) -> Op {
        match opcode {
            Opcode::SLL => Op::Shl,
            Opcode::SRL => Op::Shr,
            Opcode::SRA => Op::Sar,
            _ => Op::Ror,
        }
    }

    /// The operation of the host that shifts by a fixed distance.
    fn fixed_shift_operation(opcode: Opcode) -> (r: Op)
        ensures
            r == Self::fixed_shift(opcode),
    {
        match opcode {
            Opcode::SLL => Op::Shl,
            Opcode::SRL => Op::Shr,
            Opcode::SRA => Op::Sar,
            _ => Op::Ror,
        }
    }

    /// The operation of the host that shifts by the value of a register.
    pub open spec fn variable_shift(opcode: Opcode) -> Op {
        match opcode {
            Opcode::SLL => Op::Shlx,
            Opcode::SRL => Op::Shrx,
            _ => Op::Sarx,
        }
    }

    /// The operation of the host that shifts by the value of a register.
    fn variable_shift_operation(opcode: Opcode) -> (r: Op)
        ensures
            r == Self::variable_shift(opcode),
    {
        match opcode {
            Opcode::SLL => Op::Shlx,
            Opcode::SRL => Op::Shrx,
            _ => Op::Sarx,
        }
    }

    /// The code of a shift or rotation.
    pub open spec fn shift_listing(instruction: Instruction) -> Seq<Line> {
        let code = Seq::<Line>::empty();
        let a: u8 = instruction.op_a;
        let b: u8 = instruction.op_b as u8;
        let c: u32 = instruction.op_c;
        let str_reg_a = common::overriding_or(a, REG_A_W);
        let code = if instruction.imm_b {
            let code = code.push(Line::Op2(3, Op::Mov, Operand::R(str_reg_a), Operand::I(instruction.op_b as u64)));
            let code = code.push(Line::Op2(3, Op::Shl, Operand::R(str_reg_a), Operand::I(c as u64)));
            let code = code + common::stow(str_reg_a, a);
            code
        } else if instruction.imm_c {
            let asm_opcode = Self::fixed_shift(instruction.opcode);
            let reg_b = common::place(b, str_reg_a, true);
            let code = code + common::fetch(b, str_reg_a, true);
            let code = code.push(Line::Op2(3, asm_opcode, Operand::R(reg_b), Operand::I(c as u64)));
            let code = code + common::stow(reg_b, a);
            code
        } else if instruction.opcode == Opcode::ROR {
            let reg_b = common::place(b, str_reg_a, true);
            let code = if a == c as u8 {
                code + common::fetch(c as u8, REG_ROR_W, true) + common::fetch(b, str_reg_a, true)
            } else {
                code + common::fetch(b, str_reg_a, true) + common::fetch(c as u8, REG_ROR_W, true)
            };
            let code = code.push(Line::Op2(3, Op::Ror, Operand::R(reg_b), Operand::R(REG_ROR_8L)));
            let code = code + common::stow(reg_b, a);
            code
        } else {
            let asm_opcode = Self::variable_shift(instruction.opcode);
            let reg_b = common::place(b, REG_B_W, false);
            let code = code + common::fetch(b, REG_B_W, false);
            let reg_c = common::place(c as u8, REG_C_W, false);
            let code = code + common::fetch(c as u8, REG_C_W, false);
            let code = code.push(Line::Op3(3, asm_opcode, Operand::R(str_reg_a), Operand::R(reg_b), Operand::R(reg_c)));
            let code = code + common::stow(str_reg_a, a);
            code
        };
        code
    }

    /// The code of a shift or rotation.
    fn shift_code(instruction: &Instruction) -> (r: Vec<Line>)
        requires
            instruction.op_a < common::HOSTED_REGISTERS,
            Self::is_shift(instruction.opcode),
            instruction.imm_b ==> instruction.opcode is SLL,
            instruction.imm_b || emit::hosted(instruction.op_b),
            instruction.imm_b || instruction.imm_c || emit::hosted(instruction.op_c),
        ensures
            r@ == Self::shift_listing(*instruction),
    {
        let mut code: Vec<Line> = Vec::new();
        let a: u8 = instruction.op_a;
        let b: u8 = instruction.op_b as u8;
        let c: u32 = instruction.op_c;
        let str_reg_a = overriding_register_or(a, REG_A_W);
        if instruction.imm_b {
            code.push(Line::Op2(3, Op::Mov, Operand::R(str_reg_a), Operand::I(instruction.op_b as u64)));
            code.push(Line::Op2(3, Op::Shl, Operand::R(str_reg_a), Operand::I(c as u64)));
            join(&mut code, stow_register(str_reg_a, a));
        } else if instruction.imm_c {
            let asm_opcode = Self::fixed_shift_operation(instruction.opcode);
            let (reg_b, fetched) = fetch_register(b, str_reg_a, true);
            join(&mut code, fetched);
            code.push(Line::Op2(3, asm_opcode, Operand::R(reg_b), Operand::I(c as u64)));
            join(&mut code, stow_register(reg_b, a));
        } else if instruction.opcode == Opcode::ROR {
            let (reg_b, first) = fetch_register(b, str_reg_a, true);
            let (_place, second) = fetch_register(c as u8, REG_ROR_W, true);
            if a == c as u8 {
                join(&mut code, second);
                join(&mut code, first);
            } else {
                join(&mut code, first);
                join(&mut code, second);
            }
            code.push(Line::Op2(3, Op::Ror, Operand::R(reg_b), Operand::R(REG_ROR_8L)));
            join(&mut code, stow_register(reg_b, a));
        } else {
            let asm_opcode = Self::variable_shift_operation(instruction.opcode);
            let (reg_b, fetched) = fetch_register(b, REG_B_W, false);
            join(&mut code, fetched);
            let (reg_c, fetched) = fetch_register(c as u8, REG_C_W, false);
            join(&mut code, fetched);
            code.push(Line::Op3(3, asm_opcode, Operand::R(str_reg_a), Operand::R(reg_b), Operand::R(reg_c)));
            join(&mut code, stow_register(str_reg_a, a));
        }
        code
    }

    /// The assembly of a shift or rotation. Only a left shift may have two immediates.
    pub fn generate_shift_asm(instruction: &Instruction) -> (r: Result<String, AotError>)
        requires
            instruction.op_a < common::HOSTED_REGISTERS,
            Self::is_shift(instruction.opcode),
            instruction.imm_b || emit::hosted(instruction.op_b),
            instruction.imm_b || instruction.imm_c || emit::hosted(instruction.op_c),
        ensures
            match r {
                Ok(text) => emit::supported(*instruction) && text@ == host::listing_text(
                    Self::shift_listing(*instruction),
                ),
                Err(e) => !emit::supported(*instruction) && e is NotSupported,
            },
    {
        if !is_supported(instruction) {
            return Err(AotError::NotSupported);
        }
        Ok(render(&Self::shift_code(instruction)))
    }

    /// The code of a multiplication to two words. The multiplicand goes to `eax`, and the high word of the product comes out in `edx`.
    pub open spec fn mult_listing(instruction: Instruction) -> Seq<Line> {
        let code = Seq::<Line>::empty();
        let b: u8 = instruction.op_b as u8;
        let c: u8 = instruction.op_c as u8;
        let code = code + common::fetch(b, REG_LO, true);
        let gpr_reg_c = common::place(c, REG_A_W, false);
        let code = code + common::fetch(c, REG_A_W, false);
        let code = if instruction.opcode == Opcode::MULT {
            let code = code.push(Line::Op1(3, Op::Imul, Operand::R(gpr_reg_c)));
            code
        } else {
            let code = code.push(Line::Op1(3, Op::Mul, Operand::R(gpr_reg_c)));
            code
        };
        let code = code + common::stow(REG_HI, Register::HI.number());
        let code = code + common::stow(REG_LO, Register::LO.number());
        code
    }

    /// The code of a multiplication to two words. The multiplicand goes to `eax`, and the high word of the product comes out in `edx`.
    fn mult_code(instruction: &Instruction) -> (r: Vec<Line>)
        requires
            instruction.opcode is MULT || instruction.opcode is MULTU,
            emit::hosted(instruction.op_b),
            emit::hosted(instruction.op_c),
        ensures
            r@ == Self::mult_listing(*instruction),
    {
        let mut code: Vec<Line> = Vec::new();
        let b: u8 = instruction.op_b as u8;
        let c: u8 = instruction.op_c as u8;
        let (_place, fetched) = fetch_register(b, REG_LO, true);
        join(&mut code, fetched);
        let (gpr_reg_c, fetched) = fetch_register(c, REG_A_W, false);
        join(&mut code, fetched);
        if instruction.opcode == Opcode::MULT {
            code.push(Line::Op1(3, Op::Imul, Operand::R(gpr_reg_c)));
        } else {
            code.push(Line::Op1(3, Op::Mul, Operand::R(gpr_reg_c)));
        }
        join(&mut code, stow_register(REG_HI, Register::HI.index()));
        join(&mut code, stow_register(REG_LO, Register::LO.index()));
        code
    }

    /// The assembly of a multiplication to two words.
    pub fn generate_mult_asm(instruction: &Instruction) -> (r: Result<String, AotError>)
        requires
            instruction.opcode is MULT || instruction.opcode is MULTU,
            emit::hosted(instruction.op_b),
            emit::hosted(instruction.op_c),
        ensures
            r is Ok && r->Ok_0@ == host::listing_text(Self::mult_listing(*instruction)),
    {
        Ok(render(&Self::mult_code(instruction)))
    }

    /// The code of a division or remainder. The dividend goes to `eax`; the quotient comes out there, and the remainder in `edx`.
    pub open spec fn div_mod_listing(instruction: Instruction) -> Seq<Line> {
        let code = Seq::<Line>::empty();
        let a: u8 = instruction.op_a;
        let b: u8 = instruction.op_b as u8;
        let c: u8 = instruction.op_c as u8;
        let code = code + common::fetch(b, REG_LO, true);
        let reg_c = common::place(c, REG_A_W, false);
        let code = code + common::fetch(c, REG_A_W, false);
        let code = code.push(Line::Op2(3, Op::Mov, Operand::R(REG_HI), Operand::I(0)));
        let code = match instruction.opcode {
            Opcode::DIV => {
                let code = code.push(Line::Op0(3, Op::Cdq));
                let code = code.push(Line::Op1(3, Op::Idiv, Operand::R(reg_c)));
                let code = code + common::stow(REG_HI, Register::HI.number());
                let code = code + common::stow(REG_LO, Register::LO.number());
                code
            },
            Opcode::DIVU => {
                let code = code.push(Line::Op1(3, Op::Div, Operand::R(reg_c)));
                let code = code + common::stow(REG_HI, Register::HI.number());
                let code = code + common::stow(REG_LO, Register::LO.number());
                code
            },
            Opcode::MOD => {
                let code = code.push(Line::Op0(3, Op::Cdq));
                let code = code.push(Line::Op1(3, Op::Idiv, Operand::R(reg_c)));
                let code = code + common::stow(REG_HI, a);
                code
            },
            _ => {
                let code = code.push(Line::Op1(3, Op::Div, Operand::R(reg_c)));
                let code = code + common::stow(REG_HI, a);
                code
            },
        };
        code
    }

    /// The code of a division or remainder. The dividend goes to `eax`; the quotient comes out there, and the remainder in `edx`.
    fn div_mod_code(instruction: &Instruction) -> (r: Vec<Line>)
        requires
            instruction.opcode is DIV || instruction.opcode is DIVU || instruction.opcode is MOD || instruction.opcode is MODU,
            instruction.opcode.lo_hi() || instruction.op_a < common::HOSTED_REGISTERS,
            emit::hosted(instruction.op_b),
            emit::hosted(instruction.op_c),
        ensures
            r@ == Self::div_mod_listing(*instruction),
    {
        let mut code: Vec<Line> = Vec::new();
        let a: u8 = instruction.op_a;
        let b: u8 = instruction.op_b as u8;
        let c: u8 = instruction.op_c as u8;
        let (_place, fetched) = fetch_register(b, REG_LO, true);
        join(&mut code, fetched);
        let (reg_c, fetched) = fetch_register(c, REG_A_W, false);
        join(&mut code, fetched);
        code.push(Line::Op2(3, Op::Mov, Operand::R(REG_HI), Operand::I(0)));
        match instruction.opcode {
            Opcode::DIV => {
                code.push(Line::Op0(3, Op::Cdq));
                code.push(Line::Op1(3, Op::Idiv, Operand::R(reg_c)));
                join(&mut code, stow_register(REG_HI, Register::HI.index()));
                join(&mut code, stow_register(REG_LO, Register::LO.index()));
            },
            Opcode::DIVU => {
                code.push(Line::Op1(3, Op::Div, Operand::R(reg_c)));
                join(&mut code, stow_register(REG_HI, Register::HI.index()));
                join(&mut code, stow_register(REG_LO, Register::LO.index()));
            },
            Opcode::MOD => {
                code.push(Line::Op0(3, Op::Cdq));
                code.push(Line::Op1(3, Op::Idiv, Operand::R(reg_c)));
                join(&mut code, stow_register(REG_HI, a));
            },
            _ => {
                code.push(Line::Op1(3, Op::Div, Operand::R(reg_c)));
                join(&mut code, stow_register(REG_HI, a));
            },
        }
        code
    }

    /// The assembly of a division or remainder.
    pub fn generate_div_mod_asm(instruction: &Instruction) -> (r: Result<String, AotError>)
        requires
            instruction.opcode is DIV || instruction.opcode is DIVU || instruction.opcode is MOD || instruction.opcode is MODU,
            instruction.opcode.lo_hi() || instruction.op_a < common::HOSTED_REGISTERS,
            emit::hosted(instruction.op_b),
            emit::hosted(instruction.op_c),
        ensures
            r is Ok && r->Ok_0@ == host::listing_text(Self::div_mod_listing(*instruction)),
    {
        Ok(render(&Self::div_mod_code(instruction)))
    }

    /// The code of a comparison.
    pub open spec fn slt_listing(instruction: Instruction) -> Seq<Line> {
        let code = Seq::<Line>::empty();
        let a: u8 = instruction.op_a;
        let b: u8 = instruction.op_b as u8;
        let c: u8 = instruction.op_c as u8;
        let code = if instruction.imm_c {
            let gpr_reg_b = common::place(b, REG_B_W, false);
            let code = code + common::fetch(b, REG_B_W, false);
            let code = code.push(Line::Op2(3, Op::Cmp, Operand::R(gpr_reg_b), Operand::I(instruction.op_c as u64)));
            let code = if instruction.opcode == Opcode::SLT {
                let code = code.push(Line::Op1(3, Op::Setl, Operand::R(REG_D_8L)));
                code
            } else {
                let code = code.push(Line::Op1(3, Op::Setb, Operand::R(REG_D_8L)));
                code
            };
            let code = code.push(Line::Op2(3, Op::Movzx, Operand::R(REG_D_W), Operand::R(REG_D_8L)));
            let code = code + common::stow(REG_D_W, a);
            code
        } else {
            let gpr_reg_b = common::place(b, REG_B_W, false);
            let code = code + common::fetch(b, REG_B_W, false);
            let gpr_reg_c = common::place(c, REG_C_W, false);
            let code = code + common::fetch(c, REG_C_W, false);
            let code = code.push(Line::Op2(3, Op::Cmp, Operand::R(gpr_reg_b), Operand::R(gpr_reg_c)));
            let code = if instruction.opcode == Opcode::SLT {
                let code = code.push(Line::Op1(3, Op::Setl, Operand::R(REG_D_8L)));
                code
            } else {
                let code = code.push(Line::Op1(3, Op::Setb, Operand::R(REG_D_8L)));
                code
            };
            let code = code.push(Line::Op2(3, Op::Movzx, Operand::R(REG_D_W), Operand::R(REG_D_8L)));
            let code = code + common::stow(REG_D_W, a);
            code
        };
        code
    }

    /// The code of a comparison.
    fn slt_code(instruction: &Instruction) -> (r: Vec<Line>)
        requires
            instruction.op_a < common::HOSTED_REGISTERS,
            instruction.opcode is SLT || instruction.opcode is SLTU,
            emit::hosted(instruction.op_b),
            instruction.imm_c || emit::hosted(instruction.op_c),
        ensures
            r@ == Self::slt_listing(*instruction),
    {
        let mut code: Vec<Line> = Vec::new();
        let a: u8 = instruction.op_a;
        let b: u8 = instruction.op_b as u8;
        let c: u8 = instruction.op_c as u8;
        if instruction.imm_c {
            let (gpr_reg_b, fetched) = fetch_register(b, REG_B_W, false);
            join(&mut code, fetched);
            code.push(Line::Op2(3, Op::Cmp, Operand::R(gpr_reg_b), Operand::I(instruction.op_c as u64)));
            if instruction.opcode == Opcode::SLT {
                code.push(Line::Op1(3, Op::Setl, Operand::R(REG_D_8L)));
            } else {
                code.push(Line::Op1(3, Op::Setb, Operand::R(REG_D_8L)));
            }
            code.push(Line::Op2(3, Op::Movzx, Operand::R(REG_D_W), Operand::R(REG_D_8L)));
            join(&mut code, stow_register(REG_D_W, a));
        } else {
            let (gpr_reg_b, fetched) = fetch_register(b, REG_B_W, false);
            join(&mut code, fetched);
            let (gpr_reg_c, fetched) = fetch_register(c, REG_C_W, false);
            join(&mut code, fetched);
            code.push(Line::Op2(3, Op::Cmp, Operand::R(gpr_reg_b), Operand::R(gpr_reg_c)));
            if instruction.opcode == Opcode::SLT {
                code.push(Line::Op1(3, Op::Setl, Operand::R(REG_D_8L)));
            } else {
                code.push(Line::Op1(3, Op::Setb, Operand::R(REG_D_8L)));
            }
            code.push(Line::Op2(3, Op::Movzx, Operand::R(REG_D_W), Operand::R(REG_D_8L)));
            join(&mut code, stow_register(REG_D_W, a));
        }
        code
    }

    /// The assembly of a comparison.
    pub fn generate_slt_asm(instruction: &Instruction) -> (r: Result<String, AotError>)
        requires
            instruction.op_a < common::HOSTED_REGISTERS,
            instruction.opcode is SLT || instruction.opcode is SLTU,
            emit::hosted(instruction.op_b),
            instruction.imm_c || emit::hosted(instruction.op_c),
        ensures
            r is Ok && r->Ok_0@ == host::listing_text(Self::slt_listing(*instruction)),
    {
        Ok(render(&Self::slt_code(instruction)))
    }

    /// The code of a count of leading zeros or ones.
    pub open spec fn cloz_listing(instruction: Instruction) -> Seq<Line> {
        let code = Seq::<Line>::empty();
        let a: u8 = instruction.op_a;
        let b: u8 = instruction.op_b as u8;
        let str_reg_a = common::overriding_or(a, REG_A_W);
        let gpr_reg_b = common::place(b, str_reg_a, a != b);
        let code = code + common::fetch(b, str_reg_a, a != b);
        let code = if instruction.opcode == Opcode::CLO {
            let code = code.push(Line::Op1(3, Op::Not, Operand::R(gpr_reg_b)));
            code
        } else {
            code
        };
        let code = code.push(Line::Op2(3, Op::Lzcnt, Operand::R(gpr_reg_b), Operand::R(gpr_reg_b)));
        let code = code + common::stow(gpr_reg_b, a);
        code
    }

    /// The code of a count of leading zeros or ones.
    fn cloz_code(instruction: &Instruction) -> (r: Vec<Line>)
        requires
            instruction.op_a < common::HOSTED_REGISTERS,
            instruction.opcode is CLO || instruction.opcode is CLZ,
            emit::hosted(instruction.op_b),
        ensures
            r@ == Self::cloz_listing(*instruction),
    {
        let mut code: Vec<Line> = Vec::new();
        let a: u8 = instruction.op_a;
        let b: u8 = instruction.op_b as u8;
        let str_reg_a = overriding_register_or(a, REG_A_W);
        let (gpr_reg_b, fetched) = fetch_register(b, str_reg_a, a != b);
        join(&mut code, fetched);
        if instruction.opcode == Opcode::CLO {
            code.push(Line::Op1(3, Op::Not, Operand::R(gpr_reg_b)));
        }
        code.push(Line::Op2(3, Op::Lzcnt, Operand::R(gpr_reg_b), Operand::R(gpr_reg_b)));
        join(&mut code, stow_register(gpr_reg_b, a));
        code
    }

    /// The assembly of a count of leading zeros or ones.
    pub fn generate_cloz_asm(instruction: &Instruction) -> (r: Result<String, AotError>)
        requires
            instruction.op_a < common::HOSTED_REGISTERS,
            instruction.opcode is CLO || instruction.opcode is CLZ,
            emit::hosted(instruction.op_b),
        ensures
            r is Ok && r->Ok_0@ == host::listing_text(Self::cloz_listing(*instruction)),
    {
        Ok(render(&Self::cloz_code(instruction)))
    }

    /// The code that notes the register accesses of an arithmetic or logic instruction.
    pub open spec fn alu_access_listing(instruction: Instruction) -> Seq<Line> {
        let code = Seq::<Line>::empty();
        let code = code + Self::access_register_meta_addr_listing();
        let code = if !instruction.imm_c {
            let code = code + Self::access_register_meta_listing(instruction.op_c, MemoryAccessPosition::C);
            code
        } else {
            code
        };
        let code = if !instruction.imm_b {
            let code = code + Self::access_register_meta_listing(instruction.op_b, MemoryAccessPosition::B);
            code
        } else {
            code
        };
        let code = if instruction.opcode.lo_hi() {
            let code = code + Self::access_register_meta_listing(Register::LO.number() as u32, MemoryAccessPosition::A);
            let code = code + Self::access_register_meta_listing(Register::HI.number() as u32, MemoryAccessPosition::HI);
            code
        } else {
            let code = code + Self::access_register_meta_listing(instruction.op_a as u32, MemoryAccessPosition::A);
            code
        };
        code
    }

    /// The code that notes the register accesses of an arithmetic or logic instruction.
    fn alu_access_code(instruction: &Instruction) -> (r: Vec<Line>)
        ensures
            r@ == Self::alu_access_listing(*instruction),
    {
        let mut code: Vec<Line> = Vec::new();
        join(&mut code, Self::access_register_meta_addr_code());
        if !instruction.imm_c {
            join(&mut code, Self::access_register_meta_code(instruction.op_c, MemoryAccessPosition::C));
        }
        if !instruction.imm_b {
            join(&mut code, Self::access_register_meta_code(instruction.op_b, MemoryAccessPosition::B));
        }
        if instruction.opcode.is_use_lo_hi_alu() {
            join(&mut code, Self::access_register_meta_code(Register::LO.index() as u32, MemoryAccessPosition::A));
            join(&mut code, Self::access_register_meta_code(Register::HI.index() as u32, MemoryAccessPosition::HI));
        } else {
            join(&mut code, Self::access_register_meta_code(instruction.op_a as u32, MemoryAccessPosition::A));
        }
        code
    }

    /// The code that computes an arithmetic or logic instruction.
    pub open spec fn alu_work_listing(instruction: Instruction) -> Seq<Line> {
        match instruction.opcode {
            Opcode::NOR => Self::nor_listing(instruction),
            Opcode::SLL | Opcode::SRL | Opcode::SRA | Opcode::ROR => Self::shift_listing(
                instruction,
            ),
            Opcode::MULT | Opcode::MULTU => Self::mult_listing(instruction),
            Opcode::DIV | Opcode::DIVU | Opcode::MOD | Opcode::MODU => Self::div_mod_listing(
                instruction,
            ),
            Opcode::SLT | Opcode::SLTU => Self::slt_listing(instruction),
            Opcode::CLO | Opcode::CLZ => Self::cloz_listing(instruction),
            _ => Self::base_alu_listing(instruction),
        }
    }

    /// The code of an arithmetic or logic instruction.
    pub open spec fn alu_listing(&self, instruction: Instruction) -> Seq<Line> {
        if self.executor_mode == ExecutorMode::Checkpoint {
            Self::alu_access_listing(instruction) + Self::alu_work_listing(instruction)
        } else {
            Self::alu_work_listing(instruction)
        }
    }

    /// The code of an arithmetic or logic instruction.
    pub(crate) fn alu_code(&self, instruction: &Instruction) -> (r: Vec<Line>)
        requires
            emit::compilable(*instruction),
            emit::supported(*instruction),
            instruction.opcode.class() == OpClass::Alu,
        ensures
            r@ == self.alu_listing(*instruction),
    {
        let mut code: Vec<Line> = Vec::new();
        if self.executor_mode == ExecutorMode::Checkpoint {
            join(&mut code, Self::alu_access_code(instruction));
        }
        let work = match instruction.opcode {
            Opcode::NOR => Self::nor_code(instruction),
            Opcode::SLL | Opcode::SRL | Opcode::SRA | Opcode::ROR => Self::shift_code(instruction),
            Opcode::MULT | Opcode::MULTU => Self::mult_code(instruction),
            Opcode::DIV | Opcode::DIVU | Opcode::MOD | Opcode::MODU => Self::div_mod_code(
                instruction,
            ),
            Opcode::SLT | Opcode::SLTU => Self::slt_code(instruction),
            Opcode::CLO | Opcode::CLZ => Self::cloz_code(instruction),
            _ => Self::base_alu_code(instruction),
        };
        join(&mut code, work);
        assert(code@ =~= self.alu_listing(*instruction));
        code
    }

    /// The assembly of an arithmetic or logic instruction. No other instruction is supported.
    pub fn generate_alu_asm(&self, instruction: &Instruction, _pc: u32) -> (r: Result<
        String,
        AotError,
    >)
        requires
            instruction.opcode.class() == OpClass::Alu ==> emit::compilable(*instruction),
        ensures
            match r {
                Ok(text) => {
                    &&& instruction.opcode.class() == OpClass::Alu
                    &&& emit::supported(*instruction)
                    &&& text@ == host::listing_text(self.alu_listing(*instruction))
                },
                Err(e) => {
                    &&& instruction.opcode.class() != OpClass::Alu || !emit::supported(*instruction)
                    &&& e is NotSupported
                },
            },
    {
        if instruction.opcode.op_class() != OpClass::Alu || !is_supported(instruction) {
            return Err(AotError::NotSupported);
        }
        Ok(render(&self.alu_code(instruction)))
    }
}

} // verus!
