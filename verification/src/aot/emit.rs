//! The code of single instructions.
use vstd::prelude::*;

pub mod alu;
pub mod control;
pub mod memory;
pub mod misc;
pub mod syscall;

use crate::aot::common::{
    ACCESS_MEM_CLK, ACCESS_MEM_SHARD, ACCESS_REG_CLK, ACCESS_REG_SHARD, HOSTED_REGISTERS, REG_A,
    REG_ADDR_SPACE, REG_B, REG_C, REG_CALLER, REG_CLK, REG_CLK_W, REG_C_W, REG_EXECUTOR_PTR,
    REG_FIRST_ARG, REG_MEMORY_PTR, REG_RETURN_VAL, REG_SECOND_ARG,
    REG_SHARD_W,
};
use crate::aot::error::AotError;
use crate::aot::host;
use crate::aot::host::{join, render, Label, Line, Op, Operand, Reg, Shift, Size, Spot};
use crate::aot::AotCompiler;
use crate::consts::DEFAULT_CLK_INC;
use crate::events::MemoryAccessPosition;
use crate::instruction;
use crate::instruction::Instruction;
use crate::opcode::{OpClass, Opcode};
use crate::state::ExecutorMode;

verus! {

/// Whether the low byte of an operand names a guest register that has a place on the host.
pub open spec fn hosted(op: u32) -> bool {
    instruction::reg_of(op) < HOSTED_REGISTERS
}

/// Whether the registers that the code of an instruction touches have a place on the host.
pub open spec fn compilable(i: Instruction) -> bool {
    match i.opcode.class() {
        OpClass::Alu => {
            &&& i.opcode.lo_hi() || i.op_a < HOSTED_REGISTERS
            &&& match i.opcode {
                Opcode::SLL | Opcode::SRL | Opcode::SRA | Opcode::ROR => i.imm_b || hosted(i.op_b)
                    && (i.imm_c || hosted(i.op_c)),
                Opcode::CLO | Opcode::CLZ => hosted(i.op_b),
                Opcode::NOR | Opcode::MULT | Opcode::MULTU | Opcode::DIV | Opcode::DIVU
                | Opcode::MOD | Opcode::MODU => hosted(i.op_b) && hosted(i.op_c),
                _ => hosted(i.op_b) && (i.imm_c || hosted(i.op_c)),
            }
        },
        OpClass::Branch => i.op_a < HOSTED_REGISTERS && (i.opcode.one_operand() || hosted(i.op_b)),
        OpClass::Jump => i.op_a < HOSTED_REGISTERS && (i.opcode is Jumpi || hosted(i.op_b)),
        OpClass::Load | OpClass::Store => i.op_a < HOSTED_REGISTERS && hosted(i.op_b),
        _ => true,
    }
}

/// Whether there is code for an instruction: only a left shift may have two immediates.
pub open spec fn supported(i: Instruction) -> bool {
    (i.opcode is SRL || i.opcode is SRA || i.opcode is ROR) ==> !i.imm_b
}

/// Whether there is code for an instruction.
pub fn is_supported(i: &Instruction) -> (r: bool)
    ensures
        r == supported(*i),
{
    !(i.imm_b && (i.opcode == Opcode::SRL || i.opcode == Opcode::SRA || i.opcode == Opcode::ROR))
}

/// Whether the registers that the code of an instruction touches have a place on the host.
pub fn is_compilable(i: &Instruction) -> (r: bool)
    ensures
        r == compilable(*i),
{
    let a: bool = i.op_a < HOSTED_REGISTERS;
    let b: bool = (i.op_b as u8) < HOSTED_REGISTERS;
    let c: bool = (i.op_c as u8) < HOSTED_REGISTERS;
    match i.opcode.op_class() {
        OpClass::Alu => (a || i.opcode.is_use_lo_hi_alu()) && match i.opcode {
            Opcode::SLL | Opcode::SRL | Opcode::SRA | Opcode::ROR => i.imm_b || b && (i.imm_c || c),
            Opcode::CLO | Opcode::CLZ => b,
            Opcode::NOR | Opcode::MULT | Opcode::MULTU | Opcode::DIV | Opcode::DIVU | Opcode::MOD
            | Opcode::MODU => b && c,
            _ => b && (i.imm_c || c),
        },
        OpClass::Branch => a && (i.opcode.only_one_operand() || b),
        OpClass::Jump => a && (i.opcode == Opcode::Jumpi || b),
        OpClass::Load | OpClass::Store => a && b,
        _ => true,
    }
}

impl AotCompiler {
    /// The address of the instruction at a program counter.
    pub open spec fn instruction_address(&self, pc: u32) -> u64 {
        let index = pc.wrapping_sub(self.program.pc_base) / 4;
        self.host.instructions.wrapping_add((index as u64).wrapping_mul(self.host.instruction_size))
    }

    /// The address of the instruction at a program counter.
    pub fn instruction_ptr(&self, pc: u32) -> (r: u64)
        ensures
            r == self.instruction_address(pc),
    {
        let index: u32 = pc.wrapping_sub(self.program.pc_base) / 4;
        self.host.instructions.wrapping_add((index as u64).wrapping_mul(self.host.instruction_size))
    }

    /// The code of an instruction.
    pub open spec fn instruction_listing(&self, instruction: Instruction, pc: u32) -> Seq<Line> {
        match instruction.opcode.class() {
            OpClass::Alu => self.alu_listing(instruction),
            OpClass::Branch => self.branch_listing(instruction, pc),
            OpClass::Jump => self.jump_listing(instruction, pc),
            OpClass::Load => self.memory_load_listing(instruction, pc),
            OpClass::Store => self.memory_store_listing(instruction, pc),
            OpClass::MovCond => self.mov_cond_listing(instruction, pc),
            OpClass::Misc => self.misc_listing(instruction, pc),
            OpClass::Syscall => self.syscall_listing(instruction, pc),
            OpClass::Unimplemented => Seq::empty(),
        }
    }

    /// The code of an instruction.
    pub(crate) fn instruction_code(&self, instruction: &Instruction, pc: u32) -> (r: Vec<Line>)
        requires
            compilable(*instruction),
            supported(*instruction),
        ensures
            r@ == self.instruction_listing(*instruction, pc),
    {
        if instruction.is_alu_instruction() {
            return self.alu_code(instruction);
        } else if instruction.is_branch_instruction() {
            return self.branch_code(instruction, pc);
        } else if instruction.is_jump_instruction() {
            return self.jump_code(instruction, pc);
        } else if instruction.is_memory_load_instruction() {
            return self.memory_load_code(instruction, pc);
        } else if instruction.is_memory_store_instruction() {
            return self.memory_store_code(instruction, pc);
        } else if instruction.is_mov_cond_instruction() {
            return self.mov_cond_code(instruction, pc);
        } else if instruction.is_misc_instruction() {
            return self.misc_code(instruction, pc);
        } else if instruction.is_syscall_instruction() {
            return self.syscall_code(instruction, pc);
        }
        Vec::new()
    }

    /// The assembly of an instruction.
    pub fn generate_instruction_asm(&self, instruction: &Instruction, pc: u32) -> (r: Result<
        String,
        AotError,
    >)
        requires
            compilable(*instruction),
        ensures
            match r {
                Ok(text) => supported(*instruction) && text@ == host::listing_text(
                    self.instruction_listing(*instruction, pc),
                ),
                Err(e) => !supported(*instruction) && e is NotSupported,
            },
    {
        if !is_supported(instruction) {
            return Err(AotError::NotSupported);
        }
        Ok(render(&self.instruction_code(instruction, pc)))
    }

    /// Code that finds the address spaces.
    pub open spec fn address_space_start_listing(&self) -> Seq<Line> {
        let code = Seq::<Line>::empty();
        let code = code.push(Line::Note("Store the start of memory address space in r15"));
        let code = code.push(Line::Op2(4, Op::Mov, Operand::R(REG_CALLER), Operand::H(self.host.get_address_space)));
        let code = code.push(Line::Op2(4, Op::Mov, Operand::R(REG_FIRST_ARG), Operand::R(REG_EXECUTOR_PTR)));
        let code = code.push(Line::Op2(4, Op::Mov, Operand::R(REG_SECOND_ARG), Operand::I(1)));
        let code = code.push(Line::Op1(4, Op::Call, Operand::R(REG_CALLER)));
        let code = code.push(Line::Op2(4, Op::Mov, Operand::R(REG_MEMORY_PTR), Operand::R(REG_RETURN_VAL)));
        let code = code.push(Line::Note("Store the start of register address space in high 64 bits of xmm0"));
        let code = code.push(Line::Op2(4, Op::Mov, Operand::R(REG_CALLER), Operand::H(self.host.get_address_space)));
        let code = code.push(Line::Op2(4, Op::Mov, Operand::R(REG_FIRST_ARG), Operand::R(REG_EXECUTOR_PTR)));
        let code = code.push(Line::Op2(4, Op::Mov, Operand::R(REG_SECOND_ARG), Operand::I(0)));
        let code = code.push(Line::Op1(4, Op::Call, Operand::R(REG_CALLER)));
        let code = code.push(Line::Op3(4, Op::PinsrqSpaced, Operand::X(REG_ADDR_SPACE), Operand::R(REG_RETURN_VAL), Operand::I(1)));
        let code = if self.executor_mode == ExecutorMode::Checkpoint {
            let code = code.push(Line::Note("Store the address of the shard for accessing the register in high 64 bits of xmm1"));
            let code = code.push(Line::Op2(4, Op::Mov, Operand::R(REG_FIRST_ARG), Operand::R(REG_EXECUTOR_PTR)));
            let code = code.push(Line::Op2(4, Op::Mov, Operand::R(REG_SECOND_ARG), Operand::I(0)));
            let code = code.push(Line::Op2(4, Op::Mov, Operand::R(REG_CALLER), Operand::H(self.host.get_access_shard_space)));
            let code = code.push(Line::Op1(4, Op::Call, Operand::R(REG_CALLER)));
            let code = code.push(Line::Op3(4, Op::PinsrqSpaced, Operand::X(ACCESS_REG_SHARD), Operand::R(REG_RETURN_VAL), Operand::I(1)));
            let code = code.push(Line::Note("Store the address of the clk for accessing the register in high 64 bits of xmm2"));
            let code = code.push(Line::Op2(4, Op::Mov, Operand::R(REG_FIRST_ARG), Operand::R(REG_EXECUTOR_PTR)));
            let code = code.push(Line::Op2(4, Op::Mov, Operand::R(REG_SECOND_ARG), Operand::I(0)));
            let code = code.push(Line::Op2(4, Op::Mov, Operand::R(REG_CALLER), Operand::H(self.host.get_access_clk_space)));
            let code = code.push(Line::Op1(4, Op::Call, Operand::R(REG_CALLER)));
            let code = code.push(Line::Op3(4, Op::PinsrqSpaced, Operand::X(ACCESS_REG_CLK), Operand::R(REG_RETURN_VAL), Operand::I(1)));
            let code = code.push(Line::Note("Store the address of the shard for accessing the memory in high 64 bits of xmm3"));
            let code = code.push(Line::Op2(4, Op::Mov, Operand::R(REG_FIRST_ARG), Operand::R(REG_EXECUTOR_PTR)));
            let code = code.push(Line::Op2(4, Op::Mov, Operand::R(REG_SECOND_ARG), Operand::I(1)));
            let code = code.push(Line::Op2(4, Op::Mov, Operand::R(REG_CALLER), Operand::H(self.host.get_access_shard_space)));
            let code = code.push(Line::Op1(4, Op::Call, Operand::R(REG_CALLER)));
            let code = code.push(Line::Op3(4, Op::PinsrqSpaced, Operand::X(ACCESS_MEM_SHARD), Operand::R(REG_RETURN_VAL), Operand::I(1)));
            let code = code.push(Line::Note("Store the address of the clk for accessing the memory in high 64 bits of xmm4"));
            let code = code.push(Line::Op2(4, Op::Mov, Operand::R(REG_FIRST_ARG), Operand::R(REG_EXECUTOR_PTR)));
            let code = code.push(Line::Op2(4, Op::Mov, Operand::R(REG_SECOND_ARG), Operand::I(1)));
            let code = code.push(Line::Op2(4, Op::Mov, Operand::R(REG_CALLER), Operand::H(self.host.get_access_clk_space)));
            let code = code.push(Line::Op1(4, Op::Call, Operand::R(REG_CALLER)));
            let code = code.push(Line::Op3(4, Op::PinsrqSpaced, Operand::X(ACCESS_MEM_CLK), Operand::R(REG_RETURN_VAL), Operand::I(1)));
            code
        } else {
            code
        };
        code
    }

    /// Code that finds the address spaces.
    pub(crate) fn address_space_start_code(&self) -> (r: Vec<Line>)
        ensures
            r@ == self.address_space_start_listing(),
    {
        let mut code: Vec<Line> = Vec::new();
        code.push(Line::Note("Store the start of memory address space in r15"));
        code.push(Line::Op2(4, Op::Mov, Operand::R(REG_CALLER), Operand::H(self.host.get_address_space)));
        code.push(Line::Op2(4, Op::Mov, Operand::R(REG_FIRST_ARG), Operand::R(REG_EXECUTOR_PTR)));
        code.push(Line::Op2(4, Op::Mov, Operand::R(REG_SECOND_ARG), Operand::I(1)));
        code.push(Line::Op1(4, Op::Call, Operand::R(REG_CALLER)));
        code.push(Line::Op2(4, Op::Mov, Operand::R(REG_MEMORY_PTR), Operand::R(REG_RETURN_VAL)));
        code.push(Line::Note("Store the start of register address space in high 64 bits of xmm0"));
        code.push(Line::Op2(4, Op::Mov, Operand::R(REG_CALLER), Operand::H(self.host.get_address_space)));
        code.push(Line::Op2(4, Op::Mov, Operand::R(REG_FIRST_ARG), Operand::R(REG_EXECUTOR_PTR)));
        code.push(Line::Op2(4, Op::Mov, Operand::R(REG_SECOND_ARG), Operand::I(0)));
        code.push(Line::Op1(4, Op::Call, Operand::R(REG_CALLER)));
        code.push(Line::Op3(4, Op::PinsrqSpaced, Operand::X(REG_ADDR_SPACE), Operand::R(REG_RETURN_VAL), Operand::I(1)));
        if self.executor_mode == ExecutorMode::Checkpoint {
            code.push(Line::Note("Store the address of the shard for accessing the register in high 64 bits of xmm1"));
            code.push(Line::Op2(4, Op::Mov, Operand::R(REG_FIRST_ARG), Operand::R(REG_EXECUTOR_PTR)));
            code.push(Line::Op2(4, Op::Mov, Operand::R(REG_SECOND_ARG), Operand::I(0)));
            code.push(Line::Op2(4, Op::Mov, Operand::R(REG_CALLER), Operand::H(self.host.get_access_shard_space)));
            code.push(Line::Op1(4, Op::Call, Operand::R(REG_CALLER)));
            code.push(Line::Op3(4, Op::PinsrqSpaced, Operand::X(ACCESS_REG_SHARD), Operand::R(REG_RETURN_VAL), Operand::I(1)));
            code.push(Line::Note("Store the address of the clk for accessing the register in high 64 bits of xmm2"));
            code.push(Line::Op2(4, Op::Mov, Operand::R(REG_FIRST_ARG), Operand::R(REG_EXECUTOR_PTR)));
            code.push(Line::Op2(4, Op::Mov, Operand::R(REG_SECOND_ARG), Operand::I(0)));
            code.push(Line::Op2(4, Op::Mov, Operand::R(REG_CALLER), Operand::H(self.host.get_access_clk_space)));
            code.push(Line::Op1(4, Op::Call, Operand::R(REG_CALLER)));
            code.push(Line::Op3(4, Op::PinsrqSpaced, Operand::X(ACCESS_REG_CLK), Operand::R(REG_RETURN_VAL), Operand::I(1)));
            code.push(Line::Note("Store the address of the shard for accessing the memory in high 64 bits of xmm3"));
            code.push(Line::Op2(4, Op::Mov, Operand::R(REG_FIRST_ARG), Operand::R(REG_EXECUTOR_PTR)));
            code.push(Line::Op2(4, Op::Mov, Operand::R(REG_SECOND_ARG), Operand::I(1)));
            code.push(Line::Op2(4, Op::Mov, Operand::R(REG_CALLER), Operand::H(self.host.get_access_shard_space)));
            code.push(Line::Op1(4, Op::Call, Operand::R(REG_CALLER)));
            code.push(Line::Op3(4, Op::PinsrqSpaced, Operand::X(ACCESS_MEM_SHARD), Operand::R(REG_RETURN_VAL), Operand::I(1)));
            code.push(Line::Note("Store the address of the clk for accessing the memory in high 64 bits of xmm4"));
            code.push(Line::Op2(4, Op::Mov, Operand::R(REG_FIRST_ARG), Operand::R(REG_EXECUTOR_PTR)));
            code.push(Line::Op2(4, Op::Mov, Operand::R(REG_SECOND_ARG), Operand::I(1)));
            code.push(Line::Op2(4, Op::Mov, Operand::R(REG_CALLER), Operand::H(self.host.get_access_clk_space)));
            code.push(Line::Op1(4, Op::Call, Operand::R(REG_CALLER)));
            code.push(Line::Op3(4, Op::PinsrqSpaced, Operand::X(ACCESS_MEM_CLK), Operand::R(REG_RETURN_VAL), Operand::I(1)));
        }
        code
    }

    /// The assembly that finds the address spaces.
    pub fn get_address_space_start(&self) -> (r: String)
        ensures
            r@ == host::listing_text(self.address_space_start_listing()),
    {
        render(&self.address_space_start_code())
    }

    /// Code that finds the shards and the clocks of the register accesses.
    pub open spec fn access_register_meta_addr_listing() -> Seq<Line> {
        let code = Seq::<Line>::empty();
        let code = code.push(Line::Op3(3, Op::Pextrq, Operand::R(REG_A), Operand::X(ACCESS_REG_SHARD), Operand::I(1)));
        let code = code.push(Line::Op3(3, Op::Pextrq, Operand::R(REG_B), Operand::X(ACCESS_REG_CLK), Operand::I(1)));
        code
    }

    /// Code that finds the shards and the clocks of the register accesses.
    pub(crate) fn access_register_meta_addr_code() -> (r: Vec<Line>)
        ensures
            r@ == Self::access_register_meta_addr_listing(),
    {
        let mut code: Vec<Line> = Vec::new();
        code.push(Line::Op3(3, Op::Pextrq, Operand::R(REG_A), Operand::X(ACCESS_REG_SHARD), Operand::I(1)));
        code.push(Line::Op3(3, Op::Pextrq, Operand::R(REG_B), Operand::X(ACCESS_REG_CLK), Operand::I(1)));
        code
    }

    /// The assembly that finds the shards and the clocks of the register accesses.
    pub fn get_access_register_meta_addr() -> (r: String)
        ensures
            r@ == host::listing_text(Self::access_register_meta_addr_listing()),
    {
        render(&Self::access_register_meta_addr_code())
    }

    /// Code that notes the access of a register by an instruction whose clock was counted last.
    pub open spec fn access_register_meta_listing(addr: u32, pos: MemoryAccessPosition) -> Seq<Line> {
        let code = Seq::<Line>::empty();
        let place: u32 = addr << 2;
        let distance: u32 = (DEFAULT_CLK_INC - pos.offset()) as u32;
        let code = code.push(Line::Op2(3, Op::Mov, Operand::M(Size::Dword, REG_A, Shift::Plus(place as u64)), Operand::R(REG_SHARD_W)));
        let code = code.push(Line::Op2(3, Op::Lea, Operand::R(REG_C), Operand::M(Size::Implied, REG_CLK, Shift::Minus(distance as u64))));
        let code = code.push(Line::Op2(3, Op::Mov, Operand::M(Size::Dword, REG_B, Shift::Plus(place as u64)), Operand::R(REG_C_W)));
        code
    }

    /// Code that notes the access of a register by an instruction whose clock was counted last.
    pub(crate) fn access_register_meta_code(addr: u32, pos: MemoryAccessPosition) -> (r: Vec<Line>)
        ensures
            r@ == Self::access_register_meta_listing(addr, pos),
    {
        let mut code: Vec<Line> = Vec::new();
        let place: u32 = addr << 2;
        let distance: u32 = DEFAULT_CLK_INC - pos.index();
        code.push(Line::Op2(3, Op::Mov, Operand::M(Size::Dword, REG_A, Shift::Plus(place as u64)), Operand::R(REG_SHARD_W)));
        code.push(Line::Op2(3, Op::Lea, Operand::R(REG_C), Operand::M(Size::Implied, REG_CLK, Shift::Minus(distance as u64))));
        code.push(Line::Op2(3, Op::Mov, Operand::M(Size::Dword, REG_B, Shift::Plus(place as u64)), Operand::R(REG_C_W)));
        code
    }

    /// Code that notes the access of a register by a branch or jump, whose clock was counted before the one of its delay slot.
    pub open spec fn access_register_meta_control_listing(addr: u32, pos: MemoryAccessPosition) -> Seq<Line> {
        let code = Seq::<Line>::empty();
        let place: u32 = addr << 2;
        let distance: u32 = (DEFAULT_CLK_INC + DEFAULT_CLK_INC - pos.offset()) as u32;
        let code = code.push(Line::Op2(3, Op::Mov, Operand::M(Size::Dword, REG_A, Shift::Plus(place as u64)), Operand::R(REG_SHARD_W)));
        let code = code.push(Line::Op2(3, Op::Lea, Operand::R(REG_C), Operand::M(Size::Implied, REG_CLK, Shift::Minus(distance as u64))));
        let code = code.push(Line::Op2(3, Op::Mov, Operand::M(Size::Dword, REG_B, Shift::Plus(place as u64)), Operand::R(REG_C_W)));
        code
    }

    /// Code that notes the access of a register by a branch or jump, whose clock was counted before the one of its delay slot.
    pub(crate) fn access_register_meta_control_code(addr: u32, pos: MemoryAccessPosition) -> (r: Vec<Line>)
        ensures
            r@ == Self::access_register_meta_control_listing(addr, pos),
    {
        let mut code: Vec<Line> = Vec::new();
        let place: u32 = addr << 2;
        let distance: u32 = DEFAULT_CLK_INC + DEFAULT_CLK_INC - pos.index();
        code.push(Line::Op2(3, Op::Mov, Operand::M(Size::Dword, REG_A, Shift::Plus(place as u64)), Operand::R(REG_SHARD_W)));
        code.push(Line::Op2(3, Op::Lea, Operand::R(REG_C), Operand::M(Size::Implied, REG_CLK, Shift::Minus(distance as u64))));
        code.push(Line::Op2(3, Op::Mov, Operand::M(Size::Dword, REG_B, Shift::Plus(place as u64)), Operand::R(REG_C_W)));
        code
    }

    /// The assembly that notes the access of a register by an instruction whose clock was counted last.
    pub fn set_access_register_meta(addr: u32, pos: MemoryAccessPosition) -> (r: String)
        ensures
            r@ == host::listing_text(Self::access_register_meta_listing(addr, pos)),
    {
        render(&Self::access_register_meta_code(addr, pos))
    }

    /// The assembly that notes the access of a register by a branch or jump.
    pub fn set_access_register_meta_control(addr: u32, pos: MemoryAccessPosition) -> (r: String)
        ensures
            r@ == host::listing_text(Self::access_register_meta_control_listing(addr, pos)),
    {
        render(&Self::access_register_meta_control_code(addr, pos))
    }

    /// Code that notes the shard of the access of a word of memory.
    pub open spec fn access_memory_shard_listing(addr: Reg) -> Seq<Line> {
        let code = Seq::<Line>::empty();
        let code = code.push(Line::Op3(3, Op::Pextrq, Operand::R(REG_A), Operand::X(ACCESS_MEM_SHARD), Operand::I(1)));
        let code = code.push(Line::Op2(3, Op::Mov, Operand::M(Size::Dword, REG_A, Shift::Index(addr)), Operand::R(REG_SHARD_W)));
        code
    }

    /// Code that notes the shard of the access of a word of memory.
    pub(crate) fn access_memory_shard_code(addr: Reg) -> (r: Vec<Line>)
        ensures
            r@ == Self::access_memory_shard_listing(addr),
    {
        let mut code: Vec<Line> = Vec::new();
        code.push(Line::Op3(3, Op::Pextrq, Operand::R(REG_A), Operand::X(ACCESS_MEM_SHARD), Operand::I(1)));
        code.push(Line::Op2(3, Op::Mov, Operand::M(Size::Dword, REG_A, Shift::Index(addr)), Operand::R(REG_SHARD_W)));
        code
    }

    /// Code that notes the clock of the access of a word of memory.
    pub open spec fn access_memory_clk_listing(addr: Reg) -> Seq<Line> {
        let code = Seq::<Line>::empty();
        let code = code.push(Line::Op2(3, Op::Lea, Operand::R(REG_C), Operand::M(Size::Implied, REG_CLK, Shift::Minus(DEFAULT_CLK_INC as u64))));
        let code = code.push(Line::Op3(3, Op::Pextrq, Operand::R(REG_A), Operand::X(ACCESS_MEM_CLK), Operand::I(1)));
        let code = code.push(Line::Op2(3, Op::Mov, Operand::M(Size::Implied, REG_A, Shift::Index(addr)), Operand::R(REG_C_W)));
        code
    }

    /// Code that notes the clock of the access of a word of memory.
    pub(crate) fn access_memory_clk_code(addr: Reg) -> (r: Vec<Line>)
        ensures
            r@ == Self::access_memory_clk_listing(addr),
    {
        let mut code: Vec<Line> = Vec::new();
        code.push(Line::Op2(3, Op::Lea, Operand::R(REG_C), Operand::M(Size::Implied, REG_CLK, Shift::Minus(DEFAULT_CLK_INC as u64))));
        code.push(Line::Op3(3, Op::Pextrq, Operand::R(REG_A), Operand::X(ACCESS_MEM_CLK), Operand::I(1)));
        code.push(Line::Op2(3, Op::Mov, Operand::M(Size::Implied, REG_A, Shift::Index(addr)), Operand::R(REG_C_W)));
        code
    }

    /// The assembly that notes the shard of the access of a word of memory.
    pub fn set_access_memory_shard(addr: Reg) -> (r: String)
        ensures
            r@ == host::listing_text(Self::access_memory_shard_listing(addr)),
    {
        render(&Self::access_memory_shard_code(addr))
    }

    /// The assembly that notes the clock of the access of a word of memory.
    pub fn set_access_memory_clk(addr: Reg) -> (r: String)
        ensures
            r@ == host::listing_text(Self::access_memory_clk_listing(addr)),
    {
        render(&Self::access_memory_clk_code(addr))
    }

    /// Code that notes the access of a word of memory.
    pub open spec fn access_memory_meta_listing(addr: Reg) -> Seq<Line> {
        let code = Seq::<Line>::empty();
        let code = code + Self::access_memory_shard_listing(addr);
        let code = code + Self::access_memory_clk_listing(addr);
        code
    }

    /// Code that notes the access of a word of memory.
    pub(crate) fn access_memory_meta_code(addr: Reg) -> (r: Vec<Line>)
        ensures
            r@ == Self::access_memory_meta_listing(addr),
    {
        let mut code: Vec<Line> = Vec::new();
        join(&mut code, Self::access_memory_shard_code(addr));
        join(&mut code, Self::access_memory_clk_code(addr));
        code
    }

    /// Code that counts events of an opcode.
    pub open spec fn event_count_listing(&self, opcode: Opcode, count: u32) -> Seq<Line> {
        let code = Seq::<Line>::empty();
        let place: u64 = opcode.ordinal() as u64;
        let code = code.push(Line::Op2(3, Op::Mov, Operand::R(REG_A), Operand::M(Size::Implied, REG_EXECUTOR_PTR, Shift::Plus(self.host.event_counts_offset))));
        let code = code.push(Line::Op2(3, Op::Add, Operand::M(Size::Qword, REG_A, Shift::Eights(place)), Operand::I(count as u64)));
        code
    }

    /// Code that counts events of an opcode.
    pub(crate) fn event_count_code(&self, opcode: Opcode, count: u32) -> (r: Vec<Line>)
        ensures
            r@ == self.event_count_listing(opcode, count),
    {
        let mut code: Vec<Line> = Vec::new();
        let place: u64 = opcode.index() as u64;
        code.push(Line::Op2(3, Op::Mov, Operand::R(REG_A), Operand::M(Size::Implied, REG_EXECUTOR_PTR, Shift::Plus(self.host.event_counts_offset))));
        code.push(Line::Op2(3, Op::Add, Operand::M(Size::Qword, REG_A, Shift::Eights(place)), Operand::I(count as u64)));
        code
    }

    /// Code that counts a word of memory when it is touched for the first time in the shard.
    pub open spec fn local_memory_listing(&self, pc: u32, addr: Reg) -> Seq<Line> {
        let code = Seq::<Line>::empty();
        let code = code.push(Line::Op3(3, Op::Pextrq, Operand::R(REG_A), Operand::X(ACCESS_MEM_SHARD), Operand::I(1)));
        let code = code.push(Line::Op2(3, Op::Cmp, Operand::M(Size::Dword, REG_A, Shift::Index(addr)), Operand::R(REG_SHARD_W)));
        let code = code.push(Line::Op1(3, Op::Je, Operand::To(Label::Within(pc, Spot::LocalMemoryEnd))));
        let code = code.push(Line::Op1(3, Op::Inc, Operand::M(Size::Dword, REG_EXECUTOR_PTR, Shift::Plus(self.host.local_mem_offset))));
        let code = code.push(Line::Here(Label::Within(pc, Spot::LocalMemoryEnd)));
        code
    }

    /// Code that counts a word of memory when it is touched for the first time in the shard.
    pub(crate) fn local_memory_code(&self, pc: u32, addr: Reg) -> (r: Vec<Line>)
        ensures
            r@ == self.local_memory_listing(pc, addr),
    {
        let mut code: Vec<Line> = Vec::new();
        code.push(Line::Op3(3, Op::Pextrq, Operand::R(REG_A), Operand::X(ACCESS_MEM_SHARD), Operand::I(1)));
        code.push(Line::Op2(3, Op::Cmp, Operand::M(Size::Dword, REG_A, Shift::Index(addr)), Operand::R(REG_SHARD_W)));
        code.push(Line::Op1(3, Op::Je, Operand::To(Label::Within(pc, Spot::LocalMemoryEnd))));
        code.push(Line::Op1(3, Op::Inc, Operand::M(Size::Dword, REG_EXECUTOR_PTR, Shift::Plus(self.host.local_mem_offset))));
        code.push(Line::Here(Label::Within(pc, Spot::LocalMemoryEnd)));
        code
    }

    /// The program counter: where the executor keeps it.
    pub open spec fn next_pc(&self) -> Operand {
        Operand::M(Size::Dword, REG_EXECUTOR_PTR, Shift::Plus(self.host.pc_offset))
    }

    /// The program counter: where the executor keeps it.
    pub(crate) fn next_pc_operand(&self) -> (r: Operand)
        ensures
            r == self.next_pc(),
    {
        Operand::M(Size::Dword, REG_EXECUTOR_PTR, Shift::Plus(self.host.pc_offset))
    }

    /// The number of instructions executed: where the executor keeps it.
    pub open spec fn global_clk(&self) -> Operand {
        Operand::M(Size::Qword, REG_EXECUTOR_PTR, Shift::Plus(self.host.global_clk_offset))
    }

    /// The number of instructions executed: where the executor keeps it.
    pub(crate) fn global_clk_operand(&self) -> (r: Operand)
        ensures
            r == self.global_clk(),
    {
        Operand::M(Size::Qword, REG_EXECUTOR_PTR, Shift::Plus(self.host.global_clk_offset))
    }

    /// Code that hands the clock to the executor.
    pub open spec fn sync_reg_to_clk_listing(&self) -> Seq<Line> {
        let code = Seq::<Line>::empty();
        let code = code.push(Line::Op2(4, Op::Mov, Operand::M(Size::Dword, REG_EXECUTOR_PTR, Shift::Plus(self.host.clk_offset)), Operand::R(REG_CLK_W)));
        code
    }

    /// Code that hands the clock to the executor.
    pub(crate) fn sync_reg_to_clk_code(&self) -> (r: Vec<Line>)
        ensures
            r@ == self.sync_reg_to_clk_listing(),
    {
        let mut code: Vec<Line> = Vec::new();
        code.push(Line::Op2(4, Op::Mov, Operand::M(Size::Dword, REG_EXECUTOR_PTR, Shift::Plus(self.host.clk_offset)), Operand::R(REG_CLK_W)));
        code
    }

    /// Code that takes the clock from the executor.
    pub open spec fn sync_clk_to_reg_listing(&self) -> Seq<Line> {
        let code = Seq::<Line>::empty();
        let code = code.push(Line::Op2(4, Op::Mov, Operand::R(REG_CLK_W), Operand::M(Size::Implied, REG_EXECUTOR_PTR, Shift::Plus(self.host.clk_offset))));
        code
    }

    /// Code that takes the clock from the executor.
    pub(crate) fn sync_clk_to_reg_code(&self) -> (r: Vec<Line>)
        ensures
            r@ == self.sync_clk_to_reg_listing(),
    {
        let mut code: Vec<Line> = Vec::new();
        code.push(Line::Op2(4, Op::Mov, Operand::R(REG_CLK_W), Operand::M(Size::Implied, REG_EXECUTOR_PTR, Shift::Plus(self.host.clk_offset))));
        code
    }

    /// Code that takes the number of the shard from the executor.
    pub open spec fn sync_shard_to_reg_listing(&self) -> Seq<Line> {
        let code = Seq::<Line>::empty();
        let code = code.push(Line::Op2(4, Op::Mov, Operand::R(REG_SHARD_W), Operand::M(Size::Implied, REG_EXECUTOR_PTR, Shift::Plus(self.host.shard_offset))));
        code
    }

    /// Code that takes the number of the shard from the executor.
    pub(crate) fn sync_shard_to_reg_code(&self) -> (r: Vec<Line>)
        ensures
            r@ == self.sync_shard_to_reg_listing(),
    {
        let mut code: Vec<Line> = Vec::new();
        code.push(Line::Op2(4, Op::Mov, Operand::R(REG_SHARD_W), Operand::M(Size::Implied, REG_EXECUTOR_PTR, Shift::Plus(self.host.shard_offset))));
        code
    }
}

} // verus!
