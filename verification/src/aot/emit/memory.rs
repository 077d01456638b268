//! The code of loads and stores.
use vstd::prelude::*;

use crate::aot::emit;
use crate::aot::common;
use crate::aot::common::{fetch_register, overriding_register_or, stow_register, REG_A_W, REG_B_W, REG_C_W, REG_D, REG_D_W, REG_MEMORY_PTR};
use crate::aot::error::AotError;
use crate::aot::host;
use crate::aot::host::{join, render, Label, Line, Op, Operand, Reg, Shift, Size, Spot, Width};
use crate::aot::AotCompiler;
use crate::events::MemoryAccessPosition;
use crate::instruction::Instruction;
use crate::opcode::{OpClass, Opcode};
use crate::state::ExecutorMode;

verus! {

impl AotCompiler {

    /// The code that merges the loaded word in `dst` with the old value in `source`, for a load of the right part of a word. The address is in `eax`.
    pub open spec fn load_right_listing(pc: u32, dst: Reg, source: Reg) -> Seq<Line> {
        let code = Seq::<Line>::empty();
        let code = code.push(Line::Op2(3, Op::And, Operand::R(REG_D_W), Operand::I(3)));
        let code = code.push(Line::Op2(3, Op::Cmp, Operand::R(REG_D_W), Operand::I(0)));
        let code = code.push(Line::Op1(3, Op::Je, Operand::To(Label::Within(pc, Spot::LwrEnd))));
        let code = code.push(Line::Op2(3, Op::Cmp, Operand::R(REG_D_W), Operand::I(1)));
        let code = code.push(Line::Op1(3, Op::Je, Operand::To(Label::Within(pc, Spot::LwrCase1))));
        let code = code.push(Line::Op2(3, Op::Cmp, Operand::R(REG_D_W), Operand::I(2)));
        let code = code.push(Line::Op1(3, Op::Je, Operand::To(Label::Within(pc, Spot::LwrCase2))));
        let code = code.push(Line::Here(Label::Within(pc, Spot::LwrCase3)));
        let code = code.push(Line::Op2(3, Op::And, Operand::R(source), Operand::Mask(0xffffff00)));
        let code = code.push(Line::Op2(3, Op::Shr, Operand::R(dst), Operand::I(24)));
        let code = code.push(Line::Op2(3, Op::Or, Operand::R(dst), Operand::R(source)));
        let code = code.push(Line::Op1(3, Op::Jmp, Operand::To(Label::Within(pc, Spot::LwrEnd))));
        let code = code.push(Line::Here(Label::Within(pc, Spot::LwrCase2)));
        let code = code.push(Line::Op2(3, Op::And, Operand::R(source), Operand::Mask(0xffff0000)));
        let code = code.push(Line::Op2(3, Op::Shr, Operand::R(dst), Operand::I(16)));
        let code = code.push(Line::Op2(3, Op::Or, Operand::R(dst), Operand::R(source)));
        let code = code.push(Line::Op1(3, Op::Jmp, Operand::To(Label::Within(pc, Spot::LwrEnd))));
        let code = code.push(Line::Here(Label::Within(pc, Spot::LwrCase1)));
        let code = code.push(Line::Op2(3, Op::And, Operand::R(source), Operand::Mask(0xff000000)));
        let code = code.push(Line::Op2(3, Op::Shr, Operand::R(dst), Operand::I(8)));
        let code = code.push(Line::Op2(3, Op::Or, Operand::R(dst), Operand::R(source)));
        let code = code.push(Line::Op1(3, Op::Jmp, Operand::To(Label::Within(pc, Spot::LwrEnd))));
        let code = code.push(Line::Here(Label::Within(pc, Spot::LwrEnd)));
        code
    }

    /// The code that merges the loaded word in `dst` with the old value in `source`, for a load of the right part of a word. The address is in `eax`.
    fn load_right_code(pc: u32, dst: Reg, source: Reg) -> (r: Vec<Line>)
        ensures
            r@ == Self::load_right_listing(pc, dst, source),
    {
        let mut code: Vec<Line> = Vec::new();
        code.push(Line::Op2(3, Op::And, Operand::R(REG_D_W), Operand::I(3)));
        code.push(Line::Op2(3, Op::Cmp, Operand::R(REG_D_W), Operand::I(0)));
        code.push(Line::Op1(3, Op::Je, Operand::To(Label::Within(pc, Spot::LwrEnd))));
        code.push(Line::Op2(3, Op::Cmp, Operand::R(REG_D_W), Operand::I(1)));
        code.push(Line::Op1(3, Op::Je, Operand::To(Label::Within(pc, Spot::LwrCase1))));
        code.push(Line::Op2(3, Op::Cmp, Operand::R(REG_D_W), Operand::I(2)));
        code.push(Line::Op1(3, Op::Je, Operand::To(Label::Within(pc, Spot::LwrCase2))));
        code.push(Line::Here(Label::Within(pc, Spot::LwrCase3)));
        code.push(Line::Op2(3, Op::And, Operand::R(source), Operand::Mask(0xffffff00)));
        code.push(Line::Op2(3, Op::Shr, Operand::R(dst), Operand::I(24)));
        code.push(Line::Op2(3, Op::Or, Operand::R(dst), Operand::R(source)));
        code.push(Line::Op1(3, Op::Jmp, Operand::To(Label::Within(pc, Spot::LwrEnd))));
        code.push(Line::Here(Label::Within(pc, Spot::LwrCase2)));
        code.push(Line::Op2(3, Op::And, Operand::R(source), Operand::Mask(0xffff0000)));
        code.push(Line::Op2(3, Op::Shr, Operand::R(dst), Operand::I(16)));
        code.push(Line::Op2(3, Op::Or, Operand::R(dst), Operand::R(source)));
        code.push(Line::Op1(3, Op::Jmp, Operand::To(Label::Within(pc, Spot::LwrEnd))));
        code.push(Line::Here(Label::Within(pc, Spot::LwrCase1)));
        code.push(Line::Op2(3, Op::And, Operand::R(source), Operand::Mask(0xff000000)));
        code.push(Line::Op2(3, Op::Shr, Operand::R(dst), Operand::I(8)));
        code.push(Line::Op2(3, Op::Or, Operand::R(dst), Operand::R(source)));
        code.push(Line::Op1(3, Op::Jmp, Operand::To(Label::Within(pc, Spot::LwrEnd))));
        code.push(Line::Here(Label::Within(pc, Spot::LwrEnd)));
        code
    }

    /// The code that merges the loaded word in `dst` with the old value in `source`, for a load of the left part of a word. The address is in `eax`.
    pub open spec fn load_left_listing(pc: u32, dst: Reg, source: Reg) -> Seq<Line> {
        let code = Seq::<Line>::empty();
        let code = code.push(Line::Op2(3, Op::And, Operand::R(REG_D_W), Operand::I(3)));
        let code = code.push(Line::Op2(3, Op::Cmp, Operand::R(REG_D_W), Operand::I(0)));
        let code = code.push(Line::Op1(3, Op::Je, Operand::To(Label::Within(pc, Spot::LwlCase0))));
        let code = code.push(Line::Op2(3, Op::Cmp, Operand::R(REG_D_W), Operand::I(1)));
        let code = code.push(Line::Op1(3, Op::Je, Operand::To(Label::Within(pc, Spot::LwlCase1))));
        let code = code.push(Line::Op2(3, Op::Cmp, Operand::R(REG_D_W), Operand::I(2)));
        let code = code.push(Line::Op1(3, Op::Je, Operand::To(Label::Within(pc, Spot::LwlCase2))));
        let code = code.push(Line::Here(Label::Within(pc, Spot::LwlCase3)));
        let code = code.push(Line::Op1(3, Op::Jmp, Operand::To(Label::Within(pc, Spot::LwlEnd))));
        let code = code.push(Line::Here(Label::Within(pc, Spot::LwlCase2)));
        let code = code.push(Line::Op2(3, Op::And, Operand::R(source), Operand::Mask(0x000000ff)));
        let code = code.push(Line::Op2(3, Op::Shl, Operand::R(dst), Operand::I(8)));
        let code = code.push(Line::Op2(3, Op::Or, Operand::R(dst), Operand::R(source)));
        let code = code.push(Line::Op1(3, Op::Jmp, Operand::To(Label::Within(pc, Spot::LwlEnd))));
        let code = code.push(Line::Here(Label::Within(pc, Spot::LwlCase1)));
        let code = code.push(Line::Op2(3, Op::And, Operand::R(source), Operand::Mask(0x0000ffff)));
        let code = code.push(Line::Op2(3, Op::Shl, Operand::R(dst), Operand::I(16)));
        let code = code.push(Line::Op2(3, Op::Or, Operand::R(dst), Operand::R(source)));
        let code = code.push(Line::Op1(3, Op::Jmp, Operand::To(Label::Within(pc, Spot::LwlEnd))));
        let code = code.push(Line::Here(Label::Within(pc, Spot::LwlCase0)));
        let code = code.push(Line::Op2(3, Op::And, Operand::R(source), Operand::Mask(0x00ffffff)));
        let code = code.push(Line::Op2(3, Op::Shl, Operand::R(dst), Operand::I(24)));
        let code = code.push(Line::Op2(3, Op::Or, Operand::R(dst), Operand::R(source)));
        let code = code.push(Line::Here(Label::Within(pc, Spot::LwlEnd)));
        code
    }

    /// The code that merges the loaded word in `dst` with the old value in `source`, for a load of the left part of a word. The address is in `eax`.
    fn load_left_code(pc: u32, dst: Reg, source: Reg) -> (r: Vec<Line>)
        ensures
            r@ == Self::load_left_listing(pc, dst, source),
    {
        let mut code: Vec<Line> = Vec::new();
        code.push(Line::Op2(3, Op::And, Operand::R(REG_D_W), Operand::I(3)));
        code.push(Line::Op2(3, Op::Cmp, Operand::R(REG_D_W), Operand::I(0)));
        code.push(Line::Op1(3, Op::Je, Operand::To(Label::Within(pc, Spot::LwlCase0))));
        code.push(Line::Op2(3, Op::Cmp, Operand::R(REG_D_W), Operand::I(1)));
        code.push(Line::Op1(3, Op::Je, Operand::To(Label::Within(pc, Spot::LwlCase1))));
        code.push(Line::Op2(3, Op::Cmp, Operand::R(REG_D_W), Operand::I(2)));
        code.push(Line::Op1(3, Op::Je, Operand::To(Label::Within(pc, Spot::LwlCase2))));
        code.push(Line::Here(Label::Within(pc, Spot::LwlCase3)));
        code.push(Line::Op1(3, Op::Jmp, Operand::To(Label::Within(pc, Spot::LwlEnd))));
        code.push(Line::Here(Label::Within(pc, Spot::LwlCase2)));
        code.push(Line::Op2(3, Op::And, Operand::R(source), Operand::Mask(0x000000ff)));
        code.push(Line::Op2(3, Op::Shl, Operand::R(dst), Operand::I(8)));
        code.push(Line::Op2(3, Op::Or, Operand::R(dst), Operand::R(source)));
        code.push(Line::Op1(3, Op::Jmp, Operand::To(Label::Within(pc, Spot::LwlEnd))));
        code.push(Line::Here(Label::Within(pc, Spot::LwlCase1)));
        code.push(Line::Op2(3, Op::And, Operand::R(source), Operand::Mask(0x0000ffff)));
        code.push(Line::Op2(3, Op::Shl, Operand::R(dst), Operand::I(16)));
        code.push(Line::Op2(3, Op::Or, Operand::R(dst), Operand::R(source)));
        code.push(Line::Op1(3, Op::Jmp, Operand::To(Label::Within(pc, Spot::LwlEnd))));
        code.push(Line::Here(Label::Within(pc, Spot::LwlCase0)));
        code.push(Line::Op2(3, Op::And, Operand::R(source), Operand::Mask(0x00ffffff)));
        code.push(Line::Op2(3, Op::Shl, Operand::R(dst), Operand::I(24)));
        code.push(Line::Op2(3, Op::Or, Operand::R(dst), Operand::R(source)));
        code.push(Line::Here(Label::Within(pc, Spot::LwlEnd)));
        code
    }

    /// The code that stores the right part of a word. The guest address is in `eax`, the host address of the word in `address`.
    pub open spec fn store_right_listing(pc: u32, address: Reg, source: Reg) -> Seq<Line> {
        let code = Seq::<Line>::empty();
        let code = code.push(Line::Op2(3, Op::And, Operand::R(REG_D_W), Operand::I(3)));
        let code = code.push(Line::Op2(3, Op::Cmp, Operand::R(REG_D_W), Operand::I(0)));
        let code = code.push(Line::Op1(3, Op::Je, Operand::To(Label::Within(pc, Spot::SwrCase0))));
        let code = code.push(Line::Op2(3, Op::Cmp, Operand::R(REG_D_W), Operand::I(1)));
        let code = code.push(Line::Op1(3, Op::Je, Operand::To(Label::Within(pc, Spot::SwrCase1))));
        let code = code.push(Line::Op2(3, Op::Cmp, Operand::R(REG_D_W), Operand::I(2)));
        let code = code.push(Line::Op1(3, Op::Je, Operand::To(Label::Within(pc, Spot::SwrCase2))));
        let code = code.push(Line::Here(Label::Within(pc, Spot::SwrCase3)));
        let code = code.push(Line::Op2(3, Op::Mov, Operand::R(REG_C_W), Operand::M(Size::Implied, address, Shift::Nothing)));
        let code = code.push(Line::Op2(3, Op::And, Operand::R(REG_C_W), Operand::Mask(0x00ffffff)));
        let code = code.push(Line::Op2(3, Op::Shl, Operand::R(source), Operand::I(24)));
        let code = code.push(Line::Op2(3, Op::Or, Operand::R(REG_C_W), Operand::R(source)));
        let code = code.push(Line::Op2(3, Op::Mov, Operand::M(Size::Implied, address, Shift::Nothing), Operand::R(REG_C_W)));
        let code = code.push(Line::Op1(3, Op::Jmp, Operand::To(Label::Within(pc, Spot::SwrEnd))));
        let code = code.push(Line::Here(Label::Within(pc, Spot::SwrCase2)));
        let code = code.push(Line::Op2(3, Op::Mov, Operand::R(REG_C_W), Operand::M(Size::Implied, address, Shift::Nothing)));
        let code = code.push(Line::Op2(3, Op::And, Operand::R(REG_C_W), Operand::Mask(0x0000ffff)));
        let code = code.push(Line::Op2(3, Op::Shl, Operand::R(source), Operand::I(16)));
        let code = code.push(Line::Op2(3, Op::Or, Operand::R(REG_C_W), Operand::R(source)));
        let code = code.push(Line::Op2(3, Op::Mov, Operand::M(Size::Implied, address, Shift::Nothing), Operand::R(REG_C_W)));
        let code = code.push(Line::Op1(3, Op::Jmp, Operand::To(Label::Within(pc, Spot::SwrEnd))));
        let code = code.push(Line::Here(Label::Within(pc, Spot::SwrCase1)));
        let code = code.push(Line::Op2(3, Op::Mov, Operand::R(REG_C_W), Operand::M(Size::Implied, address, Shift::Nothing)));
        let code = code.push(Line::Op2(3, Op::And, Operand::R(REG_C_W), Operand::Mask(0x000000ff)));
        let code = code.push(Line::Op2(3, Op::Shl, Operand::R(source), Operand::I(8)));
        let code = code.push(Line::Op2(3, Op::Or, Operand::R(REG_C_W), Operand::R(source)));
        let code = code.push(Line::Op2(3, Op::Mov, Operand::M(Size::Implied, address, Shift::Nothing), Operand::R(REG_C_W)));
        let code = code.push(Line::Op1(3, Op::Jmp, Operand::To(Label::Within(pc, Spot::SwrEnd))));
        let code = code.push(Line::Here(Label::Within(pc, Spot::SwrCase0)));
        let code = code.push(Line::Op2(3, Op::Mov, Operand::M(Size::Implied, address, Shift::Nothing), Operand::R(source)));
        let code = code.push(Line::Here(Label::Within(pc, Spot::SwrEnd)));
        code
    }

    /// The code that stores the right part of a word. The guest address is in `eax`, the host address of the word in `address`.
    fn store_right_code(pc: u32, address: Reg, source: Reg) -> (r: Vec<Line>)
        ensures
            r@ == Self::store_right_listing(pc, address, source),
    {
        let mut code: Vec<Line> = Vec::new();
        code.push(Line::Op2(3, Op::And, Operand::R(REG_D_W), Operand::I(3)));
        code.push(Line::Op2(3, Op::Cmp, Operand::R(REG_D_W), Operand::I(0)));
        code.push(Line::Op1(3, Op::Je, Operand::To(Label::Within(pc, Spot::SwrCase0))));
        code.push(Line::Op2(3, Op::Cmp, Operand::R(REG_D_W), Operand::I(1)));
        code.push(Line::Op1(3, Op::Je, Operand::To(Label::Within(pc, Spot::SwrCase1))));
        code.push(Line::Op2(3, Op::Cmp, Operand::R(REG_D_W), Operand::I(2)));
        code.push(Line::Op1(3, Op::Je, Operand::To(Label::Within(pc, Spot::SwrCase2))));
        code.push(Line::Here(Label::Within(pc, Spot::SwrCase3)));
        code.push(Line::Op2(3, Op::Mov, Operand::R(REG_C_W), Operand::M(Size::Implied, address, Shift::Nothing)));
        code.push(Line::Op2(3, Op::And, Operand::R(REG_C_W), Operand::Mask(0x00ffffff)));
        code.push(Line::Op2(3, Op::Shl, Operand::R(source), Operand::I(24)));
        code.push(Line::Op2(3, Op::Or, Operand::R(REG_C_W), Operand::R(source)));
        code.push(Line::Op2(3, Op::Mov, Operand::M(Size::Implied, address, Shift::Nothing), Operand::R(REG_C_W)));
        code.push(Line::Op1(3, Op::Jmp, Operand::To(Label::Within(pc, Spot::SwrEnd))));
        code.push(Line::Here(Label::Within(pc, Spot::SwrCase2)));
        code.push(Line::Op2(3, Op::Mov, Operand::R(REG_C_W), Operand::M(Size::Implied, address, Shift::Nothing)));
        code.push(Line::Op2(3, Op::And, Operand::R(REG_C_W), Operand::Mask(0x0000ffff)));
        code.push(Line::Op2(3, Op::Shl, Operand::R(source), Operand::I(16)));
        code.push(Line::Op2(3, Op::Or, Operand::R(REG_C_W), Operand::R(source)));
        code.push(Line::Op2(3, Op::Mov, Operand::M(Size::Implied, address, Shift::Nothing), Operand::R(REG_C_W)));
        code.push(Line::Op1(3, Op::Jmp, Operand::To(Label::Within(pc, Spot::SwrEnd))));
        code.push(Line::Here(Label::Within(pc, Spot::SwrCase1)));
        code.push(Line::Op2(3, Op::Mov, Operand::R(REG_C_W), Operand::M(Size::Implied, address, Shift::Nothing)));
        code.push(Line::Op2(3, Op::And, Operand::R(REG_C_W), Operand::Mask(0x000000ff)));
        code.push(Line::Op2(3, Op::Shl, Operand::R(source), Operand::I(8)));
        code.push(Line::Op2(3, Op::Or, Operand::R(REG_C_W), Operand::R(source)));
        code.push(Line::Op2(3, Op::Mov, Operand::M(Size::Implied, address, Shift::Nothing), Operand::R(REG_C_W)));
        code.push(Line::Op1(3, Op::Jmp, Operand::To(Label::Within(pc, Spot::SwrEnd))));
        code.push(Line::Here(Label::Within(pc, Spot::SwrCase0)));
        code.push(Line::Op2(3, Op::Mov, Operand::M(Size::Implied, address, Shift::Nothing), Operand::R(source)));
        code.push(Line::Here(Label::Within(pc, Spot::SwrEnd)));
        code
    }

    /// The code that stores the left part of a word. The guest address is in `eax`, the host address of the word in `address`.
    pub open spec fn store_left_listing(pc: u32, address: Reg, source: Reg) -> Seq<Line> {
        let code = Seq::<Line>::empty();
        let code = code.push(Line::Op2(3, Op::And, Operand::R(REG_D_W), Operand::I(3)));
        let code = code.push(Line::Op2(3, Op::Cmp, Operand::R(REG_D_W), Operand::I(0)));
        let code = code.push(Line::Op1(3, Op::Je, Operand::To(Label::Within(pc, Spot::SwlCase0))));
        let code = code.push(Line::Op2(3, Op::Cmp, Operand::R(REG_D_W), Operand::I(1)));
        let code = code.push(Line::Op1(3, Op::Je, Operand::To(Label::Within(pc, Spot::SwlCase1))));
        let code = code.push(Line::Op2(3, Op::Cmp, Operand::R(REG_D_W), Operand::I(2)));
        let code = code.push(Line::Op1(3, Op::Je, Operand::To(Label::Within(pc, Spot::SwlCase2))));
        let code = code.push(Line::Here(Label::Within(pc, Spot::SwlCase3)));
        let code = code.push(Line::Op2(3, Op::Mov, Operand::M(Size::Implied, address, Shift::Nothing), Operand::R(source)));
        let code = code.push(Line::Op1(3, Op::Jmp, Operand::To(Label::Within(pc, Spot::SwlEnd))));
        let code = code.push(Line::Here(Label::Within(pc, Spot::SwlCase2)));
        let code = code.push(Line::Op2(3, Op::Mov, Operand::R(REG_C_W), Operand::M(Size::Implied, address, Shift::Nothing)));
        let code = code.push(Line::Op2(3, Op::And, Operand::R(REG_C_W), Operand::Mask(0xff000000)));
        let code = code.push(Line::Op2(3, Op::Shr, Operand::R(source), Operand::I(8)));
        let code = code.push(Line::Op2(3, Op::Or, Operand::R(REG_C_W), Operand::R(source)));
        let code = code.push(Line::Op2(3, Op::Mov, Operand::M(Size::Implied, address, Shift::Nothing), Operand::R(REG_C_W)));
        let code = code.push(Line::Op1(3, Op::Jmp, Operand::To(Label::Within(pc, Spot::SwlEnd))));
        let code = code.push(Line::Here(Label::Within(pc, Spot::SwlCase1)));
        let code = code.push(Line::Op2(3, Op::Mov, Operand::R(REG_C_W), Operand::M(Size::Implied, address, Shift::Nothing)));
        let code = code.push(Line::Op2(3, Op::And, Operand::R(REG_C_W), Operand::Mask(0xffff0000)));
        let code = code.push(Line::Op2(3, Op::Shr, Operand::R(source), Operand::I(16)));
        let code = code.push(Line::Op2(3, Op::Or, Operand::R(REG_C_W), Operand::R(source)));
        let code = code.push(Line::Op2(3, Op::Mov, Operand::M(Size::Implied, address, Shift::Nothing), Operand::R(REG_C_W)));
        let code = code.push(Line::Op1(3, Op::Jmp, Operand::To(Label::Within(pc, Spot::SwlEnd))));
        let code = code.push(Line::Here(Label::Within(pc, Spot::SwlCase0)));
        let code = code.push(Line::Op2(3, Op::Mov, Operand::R(REG_C_W), Operand::M(Size::Implied, address, Shift::Nothing)));
        let code = code.push(Line::Op2(3, Op::And, Operand::R(REG_C_W), Operand::Mask(0xffffff00)));
        let code = code.push(Line::Op2(3, Op::Shr, Operand::R(source), Operand::I(24)));
        let code = code.push(Line::Op2(3, Op::Or, Operand::R(REG_C_W), Operand::R(source)));
        let code = code.push(Line::Op2(3, Op::Mov, Operand::M(Size::Implied, address, Shift::Nothing), Operand::R(REG_C_W)));
        let code = code.push(Line::Here(Label::Within(pc, Spot::SwlEnd)));
        code
    }

    /// The code that stores the left part of a word. The guest address is in `eax`, the host address of the word in `address`.
    fn store_left_code(pc: u32, address: Reg, source: Reg) -> (r: Vec<Line>)
        ensures
            r@ == Self::store_left_listing(pc, address, source),
    {
        let mut code: Vec<Line> = Vec::new();
        code.push(Line::Op2(3, Op::And, Operand::R(REG_D_W), Operand::I(3)));
        code.push(Line::Op2(3, Op::Cmp, Operand::R(REG_D_W), Operand::I(0)));
        code.push(Line::Op1(3, Op::Je, Operand::To(Label::Within(pc, Spot::SwlCase0))));
        code.push(Line::Op2(3, Op::Cmp, Operand::R(REG_D_W), Operand::I(1)));
        code.push(Line::Op1(3, Op::Je, Operand::To(Label::Within(pc, Spot::SwlCase1))));
        code.push(Line::Op2(3, Op::Cmp, Operand::R(REG_D_W), Operand::I(2)));
        code.push(Line::Op1(3, Op::Je, Operand::To(Label::Within(pc, Spot::SwlCase2))));
        code.push(Line::Here(Label::Within(pc, Spot::SwlCase3)));
        code.push(Line::Op2(3, Op::Mov, Operand::M(Size::Implied, address, Shift::Nothing), Operand::R(source)));
        code.push(Line::Op1(3, Op::Jmp, Operand::To(Label::Within(pc, Spot::SwlEnd))));
        code.push(Line::Here(Label::Within(pc, Spot::SwlCase2)));
        code.push(Line::Op2(3, Op::Mov, Operand::R(REG_C_W), Operand::M(Size::Implied, address, Shift::Nothing)));
        code.push(Line::Op2(3, Op::And, Operand::R(REG_C_W), Operand::Mask(0xff000000)));
        code.push(Line::Op2(3, Op::Shr, Operand::R(source), Operand::I(8)));
        code.push(Line::Op2(3, Op::Or, Operand::R(REG_C_W), Operand::R(source)));
        code.push(Line::Op2(3, Op::Mov, Operand::M(Size::Implied, address, Shift::Nothing), Operand::R(REG_C_W)));
        code.push(Line::Op1(3, Op::Jmp, Operand::To(Label::Within(pc, Spot::SwlEnd))));
        code.push(Line::Here(Label::Within(pc, Spot::SwlCase1)));
        code.push(Line::Op2(3, Op::Mov, Operand::R(REG_C_W), Operand::M(Size::Implied, address, Shift::Nothing)));
        code.push(Line::Op2(3, Op::And, Operand::R(REG_C_W), Operand::Mask(0xffff0000)));
        code.push(Line::Op2(3, Op::Shr, Operand::R(source), Operand::I(16)));
        code.push(Line::Op2(3, Op::Or, Operand::R(REG_C_W), Operand::R(source)));
        code.push(Line::Op2(3, Op::Mov, Operand::M(Size::Implied, address, Shift::Nothing), Operand::R(REG_C_W)));
        code.push(Line::Op1(3, Op::Jmp, Operand::To(Label::Within(pc, Spot::SwlEnd))));
        code.push(Line::Here(Label::Within(pc, Spot::SwlCase0)));
        code.push(Line::Op2(3, Op::Mov, Operand::R(REG_C_W), Operand::M(Size::Implied, address, Shift::Nothing)));
        code.push(Line::Op2(3, Op::And, Operand::R(REG_C_W), Operand::Mask(0xffffff00)));
        code.push(Line::Op2(3, Op::Shr, Operand::R(source), Operand::I(24)));
        code.push(Line::Op2(3, Op::Or, Operand::R(REG_C_W), Operand::R(source)));
        code.push(Line::Op2(3, Op::Mov, Operand::M(Size::Implied, address, Shift::Nothing), Operand::R(REG_C_W)));
        code.push(Line::Here(Label::Within(pc, Spot::SwlEnd)));
        code
    }

    /// The code of a load.
    pub open spec fn memory_load_listing(&self, instruction: Instruction, pc: u32) -> Seq<Line> {
        let code = Seq::<Line>::empty();
        let code = if self.executor_mode == ExecutorMode::Checkpoint {
            let code = code + self.event_count_listing(instruction.opcode, 1);
            let code = code + self.event_count_listing(Opcode::ADD, 2);
            let code = code + Self::access_register_meta_addr_listing();
            let code = code + Self::access_register_meta_listing(instruction.op_b, MemoryAccessPosition::B);
            let code = code + Self::access_register_meta_listing(instruction.op_a as u32, MemoryAccessPosition::A);
            code
        } else {
            code
        };
        let a: u8 = instruction.op_a;
        let b: u8 = instruction.op_b as u8;
        let offset_ext: u32 = instruction.op_c;
        let gpr_reg = common::place(b, REG_B_W, true);
        let code = code + common::fetch(b, REG_B_W, true);
        let code = code.push(Line::Op2(3, Op::Add, Operand::R(gpr_reg), Operand::I(offset_ext as u64)));
        let code = if instruction.opcode == Opcode::LWR || instruction.opcode == Opcode::LWL {
            let code = code.push(Line::Op2(3, Op::Mov, Operand::R(REG_D_W), Operand::R(gpr_reg)));
            let code = code.push(Line::Op2(3, Op::And, Operand::R(gpr_reg), Operand::H(0xfffffffc)));
            code
        } else {
            code
        };
        let code = if instruction.opcode == Opcode::LW || instruction.opcode == Opcode::LL {
            let code = code.push(Line::Op2(3, Op::And, Operand::R(gpr_reg), Operand::H(0xfffffffc)));
            code
        } else {
            code
        };
        let gpr_reg_w64 = Reg::of(gpr_reg.gpr(), Width::W64);
        let code = if self.executor_mode == ExecutorMode::Checkpoint {
            let code = if instruction.opcode == Opcode::LW || instruction.opcode == Opcode::LL || instruction.opcode == Opcode::LWL || instruction.opcode == Opcode::LWR {
                let code = code + self.local_memory_listing(pc, gpr_reg_w64);
                let code = code + Self::access_memory_meta_listing(gpr_reg_w64);
                code
            } else {
                let code = code.push(Line::Op2(3, Op::Mov, Operand::R(REG_D_W), Operand::R(gpr_reg)));
                let code = code.push(Line::Op2(3, Op::And, Operand::R(REG_D_W), Operand::H(0xfffffffc)));
                let code = code + self.local_memory_listing(pc, REG_D);
                let code = code + Self::access_memory_meta_listing(REG_D);
                code
            };
            code
        } else {
            code
        };
        let code = code.push(Line::Op2(3, Op::Lea, Operand::R(gpr_reg_w64), Operand::M(Size::Implied, gpr_reg_w64, Shift::Index(REG_MEMORY_PTR))));
        // A load of a part of a word still needs the old value of the register.
        let merges = instruction.opcode == Opcode::LWR || instruction.opcode == Opcode::LWL;
        let str_reg_a = if merges { REG_B_W } else { common::overriding_or(a, REG_B_W) };
        let code = match instruction.opcode {
            Opcode::LB => {
                let code = code.push(Line::Op2(3, Op::Movsx, Operand::R(str_reg_a), Operand::M(Size::Byte, gpr_reg_w64, Shift::Nothing)));
                code
            },
            Opcode::LBU => {
                let code = code.push(Line::Op2(3, Op::Movzx, Operand::R(str_reg_a), Operand::M(Size::Byte, gpr_reg_w64, Shift::Nothing)));
                code
            },
            Opcode::LH => {
                let code = code.push(Line::Op2(3, Op::Movsx, Operand::R(str_reg_a), Operand::M(Size::Word, gpr_reg_w64, Shift::Nothing)));
                code
            },
            Opcode::LHU => {
                let code = code.push(Line::Op2(3, Op::Movzx, Operand::R(str_reg_a), Operand::M(Size::Word, gpr_reg_w64, Shift::Nothing)));
                code
            },
            Opcode::LWR => {
                let code = code.push(Line::Op2(3, Op::Mov, Operand::R(str_reg_a), Operand::M(Size::Implied, gpr_reg_w64, Shift::Nothing)));
                let gpr_reg_source = common::place(a, REG_C_W, true);
                let code = code + common::fetch(a, REG_C_W, true);
                let code = code + Self::load_right_listing(pc, str_reg_a, gpr_reg_source);
                code
            },
            Opcode::LWL => {
                let code = code.push(Line::Op2(3, Op::Mov, Operand::R(str_reg_a), Operand::M(Size::Implied, gpr_reg_w64, Shift::Nothing)));
                let gpr_reg_source = common::place(a, REG_C_W, true);
                let code = code + common::fetch(a, REG_C_W, true);
                let code = code + Self::load_left_listing(pc, str_reg_a, gpr_reg_source);
                code
            },
            _ => {
                let code = code.push(Line::Op2(3, Op::Mov, Operand::R(str_reg_a), Operand::M(Size::Implied, gpr_reg_w64, Shift::Nothing)));
                code
            },
        };
        let code = if a != 0 {
            let code = code + common::stow(str_reg_a, a);
            code
        } else {
            code
        };
        code
    }

    /// The code of a load.
    pub(crate) fn memory_load_code(&self, instruction: &Instruction, pc: u32) -> (r: Vec<Line>)
        requires
            emit::compilable(*instruction),
            instruction.opcode.class() == OpClass::Load,
        ensures
            r@ == self.memory_load_listing(*instruction, pc),
    {
        let mut code: Vec<Line> = Vec::new();
        if self.executor_mode == ExecutorMode::Checkpoint {
            join(&mut code, self.event_count_code(instruction.opcode, 1));
            join(&mut code, self.event_count_code(Opcode::ADD, 2));
            join(&mut code, Self::access_register_meta_addr_code());
            join(&mut code, Self::access_register_meta_code(instruction.op_b, MemoryAccessPosition::B));
            join(&mut code, Self::access_register_meta_code(instruction.op_a as u32, MemoryAccessPosition::A));
        }
        let a: u8 = instruction.op_a;
        let b: u8 = instruction.op_b as u8;
        let offset_ext: u32 = instruction.op_c;
        let (gpr_reg, fetched) = fetch_register(b, REG_B_W, true);
        join(&mut code, fetched);
        code.push(Line::Op2(3, Op::Add, Operand::R(gpr_reg), Operand::I(offset_ext as u64)));
        if instruction.opcode == Opcode::LWR || instruction.opcode == Opcode::LWL {
            code.push(Line::Op2(3, Op::Mov, Operand::R(REG_D_W), Operand::R(gpr_reg)));
            code.push(Line::Op2(3, Op::And, Operand::R(gpr_reg), Operand::H(0xfffffffc)));
        }
        if instruction.opcode == Opcode::LW || instruction.opcode == Opcode::LL {
            code.push(Line::Op2(3, Op::And, Operand::R(gpr_reg), Operand::H(0xfffffffc)));
        }
        let gpr_reg_w64 = gpr_reg.part(Width::W64);
        if self.executor_mode == ExecutorMode::Checkpoint {
            if instruction.opcode == Opcode::LW || instruction.opcode == Opcode::LL || instruction.opcode == Opcode::LWL || instruction.opcode == Opcode::LWR {
                join(&mut code, self.local_memory_code(pc, gpr_reg_w64));
                join(&mut code, Self::access_memory_meta_code(gpr_reg_w64));
            } else {
                code.push(Line::Op2(3, Op::Mov, Operand::R(REG_D_W), Operand::R(gpr_reg)));
                code.push(Line::Op2(3, Op::And, Operand::R(REG_D_W), Operand::H(0xfffffffc)));
                join(&mut code, self.local_memory_code(pc, REG_D));
                join(&mut code, Self::access_memory_meta_code(REG_D));
            }
        }
        code.push(Line::Op2(3, Op::Lea, Operand::R(gpr_reg_w64), Operand::M(Size::Implied, gpr_reg_w64, Shift::Index(REG_MEMORY_PTR))));
        let merges: bool = instruction.opcode == Opcode::LWR || instruction.opcode == Opcode::LWL;
        let str_reg_a = if merges { REG_B_W } else { overriding_register_or(a, REG_B_W) };
        match instruction.opcode {
            Opcode::LB => {
                code.push(Line::Op2(3, Op::Movsx, Operand::R(str_reg_a), Operand::M(Size::Byte, gpr_reg_w64, Shift::Nothing)));
            },
            Opcode::LBU => {
                code.push(Line::Op2(3, Op::Movzx, Operand::R(str_reg_a), Operand::M(Size::Byte, gpr_reg_w64, Shift::Nothing)));
            },
            Opcode::LH => {
                code.push(Line::Op2(3, Op::Movsx, Operand::R(str_reg_a), Operand::M(Size::Word, gpr_reg_w64, Shift::Nothing)));
            },
            Opcode::LHU => {
                code.push(Line::Op2(3, Op::Movzx, Operand::R(str_reg_a), Operand::M(Size::Word, gpr_reg_w64, Shift::Nothing)));
            },
            Opcode::LWR => {
                code.push(Line::Op2(3, Op::Mov, Operand::R(str_reg_a), Operand::M(Size::Implied, gpr_reg_w64, Shift::Nothing)));
                let (gpr_reg_source, fetched) = fetch_register(a, REG_C_W, true);
                join(&mut code, fetched);
                join(&mut code, Self::load_right_code(pc, str_reg_a, gpr_reg_source));
            },
            Opcode::LWL => {
                code.push(Line::Op2(3, Op::Mov, Operand::R(str_reg_a), Operand::M(Size::Implied, gpr_reg_w64, Shift::Nothing)));
                let (gpr_reg_source, fetched) = fetch_register(a, REG_C_W, true);
                join(&mut code, fetched);
                join(&mut code, Self::load_left_code(pc, str_reg_a, gpr_reg_source));
            },
            _ => {
                code.push(Line::Op2(3, Op::Mov, Operand::R(str_reg_a), Operand::M(Size::Implied, gpr_reg_w64, Shift::Nothing)));
            },
        }
        if a != 0 {
            join(&mut code, stow_register(str_reg_a, a));
        }
        code
    }

    /// The assembly of a load.
    pub fn generate_memory_load_asm(&self, instruction: &Instruction, pc: u32) -> (r: Result<String, AotError>)
        requires
            emit::compilable(*instruction),
            instruction.opcode.class() == OpClass::Load,
        ensures
            r is Ok && r->Ok_0@ == host::listing_text(self.memory_load_listing(*instruction, pc)),
    {
        Ok(render(&self.memory_load_code(instruction, pc)))
    }

    /// The code of a store.
    pub open spec fn memory_store_listing(&self, instruction: Instruction, pc: u32) -> Seq<Line> {
        let code = Seq::<Line>::empty();
        let code = if self.executor_mode == ExecutorMode::Checkpoint {
            let code = code + self.event_count_listing(instruction.opcode, 1);
            let code = code + Self::access_register_meta_addr_listing();
            let code = code + Self::access_register_meta_listing(instruction.op_b, MemoryAccessPosition::B);
            let code = code + Self::access_register_meta_listing(instruction.op_a as u32, MemoryAccessPosition::A);
            code
        } else {
            code
        };
        let a: u8 = instruction.op_a;
        let b: u8 = instruction.op_b as u8;
        let offset_ext: u32 = instruction.op_c;
        let gpr_reg = common::place(b, REG_B_W, true);
        let code = code + common::fetch(b, REG_B_W, true);
        let code = code.push(Line::Op2(3, Op::Add, Operand::R(gpr_reg), Operand::I(offset_ext as u64)));
        let code = if instruction.opcode == Opcode::SWR || instruction.opcode == Opcode::SWL {
            let code = code.push(Line::Op2(3, Op::Mov, Operand::R(REG_D_W), Operand::R(gpr_reg)));
            let code = code.push(Line::Op2(3, Op::And, Operand::R(gpr_reg), Operand::H(0xfffffffc)));
            code
        } else {
            code
        };
        let code = if instruction.opcode == Opcode::SW || instruction.opcode == Opcode::SC {
            let code = code.push(Line::Op2(3, Op::And, Operand::R(gpr_reg), Operand::H(0xfffffffc)));
            code
        } else {
            code
        };
        let gpr_reg_w64 = Reg::of(gpr_reg.gpr(), Width::W64);
        let code = if self.executor_mode == ExecutorMode::Checkpoint {
            let code = if instruction.opcode == Opcode::SW || instruction.opcode == Opcode::SC || instruction.opcode == Opcode::SWL || instruction.opcode == Opcode::SWR {
                let code = code + self.local_memory_listing(pc, gpr_reg_w64);
                let code = code + Self::access_memory_meta_listing(gpr_reg_w64);
                code
            } else {
                let code = code.push(Line::Op2(3, Op::Mov, Operand::R(REG_D_W), Operand::R(gpr_reg)));
                let code = code.push(Line::Op2(3, Op::And, Operand::R(REG_D_W), Operand::H(0xfffffffc)));
                let code = code + self.local_memory_listing(pc, REG_D);
                let code = code + Self::access_memory_meta_listing(REG_D);
                code
            };
            code
        } else {
            code
        };
        let code = code.push(Line::Op2(3, Op::Lea, Operand::R(gpr_reg_w64), Operand::M(Size::Implied, gpr_reg_w64, Shift::Index(REG_MEMORY_PTR))));
        // A store of a part of a word shifts a copy of the register.
        let shifts = instruction.opcode == Opcode::SWR || instruction.opcode == Opcode::SWL;
        let gpr_reg_source = common::place(a, REG_A_W, shifts);
        let code = code + common::fetch(a, REG_A_W, shifts);
        let code = match instruction.opcode {
            Opcode::SB => {
                let low = Reg::of(gpr_reg_source.gpr(), Width::W8L);
                let code = code.push(Line::Op2(3, Op::Mov, Operand::M(Size::Byte, gpr_reg_w64, Shift::Nothing), Operand::R(low)));
                code
            },
            Opcode::SH => {
                let low = Reg::of(gpr_reg_source.gpr(), Width::W16);
                let code = code.push(Line::Op2(3, Op::Mov, Operand::M(Size::Word, gpr_reg_w64, Shift::Nothing), Operand::R(low)));
                code
            },
            Opcode::SC => {
                let code = code.push(Line::Op2(3, Op::Mov, Operand::M(Size::Implied, gpr_reg_w64, Shift::Nothing), Operand::R(gpr_reg_source)));
                let code = code.push(Line::Op2(3, Op::Mov, Operand::R(gpr_reg_source), Operand::I(1)));
                let code = code + common::stow(gpr_reg_source, a);
                code
            },
            Opcode::SWR => {
                let code = code + Self::store_right_listing(pc, gpr_reg_w64, gpr_reg_source);
                code
            },
            Opcode::SWL => {
                let code = code + Self::store_left_listing(pc, gpr_reg_w64, gpr_reg_source);
                code
            },
            _ => {
                let code = code.push(Line::Op2(3, Op::Mov, Operand::M(Size::Implied, gpr_reg_w64, Shift::Nothing), Operand::R(gpr_reg_source)));
                code
            },
        };
        code
    }

    /// The code of a store.
    pub(crate) fn memory_store_code(&self, instruction: &Instruction, pc: u32) -> (r: Vec<Line>)
        requires
            emit::compilable(*instruction),
            instruction.opcode.class() == OpClass::Store,
        ensures
            r@ == self.memory_store_listing(*instruction, pc),
    {
        let mut code: Vec<Line> = Vec::new();
        if self.executor_mode == ExecutorMode::Checkpoint {
            join(&mut code, self.event_count_code(instruction.opcode, 1));
            join(&mut code, Self::access_register_meta_addr_code());
            join(&mut code, Self::access_register_meta_code(instruction.op_b, MemoryAccessPosition::B));
            join(&mut code, Self::access_register_meta_code(instruction.op_a as u32, MemoryAccessPosition::A));
        }
        let a: u8 = instruction.op_a;
        let b: u8 = instruction.op_b as u8;
        let offset_ext: u32 = instruction.op_c;
        let (gpr_reg, fetched) = fetch_register(b, REG_B_W, true);
        join(&mut code, fetched);
        code.push(Line::Op2(3, Op::Add, Operand::R(gpr_reg), Operand::I(offset_ext as u64)));
        if instruction.opcode == Opcode::SWR || instruction.opcode == Opcode::SWL {
            code.push(Line::Op2(3, Op::Mov, Operand::R(REG_D_W), Operand::R(gpr_reg)));
            code.push(Line::Op2(3, Op::And, Operand::R(gpr_reg), Operand::H(0xfffffffc)));
        }
        if instruction.opcode == Opcode::SW || instruction.opcode == Opcode::SC {
            code.push(Line::Op2(3, Op::And, Operand::R(gpr_reg), Operand::H(0xfffffffc)));
        }
        let gpr_reg_w64 = gpr_reg.part(Width::W64);
        if self.executor_mode == ExecutorMode::Checkpoint {
            if instruction.opcode == Opcode::SW || instruction.opcode == Opcode::SC || instruction.opcode == Opcode::SWL || instruction.opcode == Opcode::SWR {
                join(&mut code, self.local_memory_code(pc, gpr_reg_w64));
                join(&mut code, Self::access_memory_meta_code(gpr_reg_w64));
            } else {
                code.push(Line::Op2(3, Op::Mov, Operand::R(REG_D_W), Operand::R(gpr_reg)));
                code.push(Line::Op2(3, Op::And, Operand::R(REG_D_W), Operand::H(0xfffffffc)));
                join(&mut code, self.local_memory_code(pc, REG_D));
                join(&mut code, Self::access_memory_meta_code(REG_D));
            }
        }
        code.push(Line::Op2(3, Op::Lea, Operand::R(gpr_reg_w64), Operand::M(Size::Implied, gpr_reg_w64, Shift::Index(REG_MEMORY_PTR))));
        let shifts: bool = instruction.opcode == Opcode::SWR || instruction.opcode == Opcode::SWL;
        let (gpr_reg_source, fetched) = fetch_register(a, REG_A_W, shifts);
        join(&mut code, fetched);
        match instruction.opcode {
            Opcode::SB => {
                let low = gpr_reg_source.part(Width::W8L);
                code.push(Line::Op2(3, Op::Mov, Operand::M(Size::Byte, gpr_reg_w64, Shift::Nothing), Operand::R(low)));
            },
            Opcode::SH => {
                let low = gpr_reg_source.part(Width::W16);
                code.push(Line::Op2(3, Op::Mov, Operand::M(Size::Word, gpr_reg_w64, Shift::Nothing), Operand::R(low)));
            },
            Opcode::SC => {
                code.push(Line::Op2(3, Op::Mov, Operand::M(Size::Implied, gpr_reg_w64, Shift::Nothing), Operand::R(gpr_reg_source)));
                code.push(Line::Op2(3, Op::Mov, Operand::R(gpr_reg_source), Operand::I(1)));
                join(&mut code, stow_register(gpr_reg_source, a));
            },
            Opcode::SWR => {
                join(&mut code, Self::store_right_code(pc, gpr_reg_w64, gpr_reg_source));
            },
            Opcode::SWL => {
                join(&mut code, Self::store_left_code(pc, gpr_reg_w64, gpr_reg_source));
            },
            _ => {
                code.push(Line::Op2(3, Op::Mov, Operand::M(Size::Implied, gpr_reg_w64, Shift::Nothing), Operand::R(gpr_reg_source)));
            },
        }
        code
    }

    /// The assembly of a store.
    pub fn generate_memory_store_asm(&self, instruction: &Instruction, pc: u32) -> (r: Result<String, AotError>)
        requires
            emit::compilable(*instruction),
            instruction.opcode.class() == OpClass::Store,
        ensures
            r is Ok && r->Ok_0@ == host::listing_text(self.memory_store_listing(*instruction, pc)),
    {
        Ok(render(&self.memory_store_code(instruction, pc)))
    }
}

} // verus!
