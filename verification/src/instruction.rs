//! Decoded instructions.
use vstd::prelude::*;

use crate::opcode::{OpClass, Opcode};
use crate::register::NUM_REGISTERS;

verus! {

/// A decoded instruction. `op_a` names a register; `op_b` and `op_c` name registers or hold
/// immediates, depending on the opcode and the two flags.
#[derive(Clone, Copy, Debug, PartialEq, Eq, Structural)]
pub struct Instruction {
    pub opcode: Opcode,
    pub op_a: u8,
    pub op_b: u32,
    pub op_c: u32,
    pub imm_b: bool,
    pub imm_c: bool,
}

/// The low byte of an operand, taken as a register number.
pub open spec fn reg_of(op: u32) -> u8 {
    op as u8
}

impl Instruction {
    /// Create an instruction.
    pub fn new(
        opcode: Opcode,
        op_a: u8,
        op_b: u32,
        op_c: u32,
        imm_b: bool,
        imm_c: bool,
    ) -> (r: Self)
        ensures
            r == (Instruction { opcode, op_a, op_b, op_c, imm_b, imm_c }),
    {
        Instruction { opcode, op_a, op_b, op_c, imm_b, imm_c }
    }

    /// Whether operand `b` is read as a register.
    pub open spec fn b_is_register(self) -> bool {
        match self.opcode.class() {
            OpClass::Alu => !self.imm_c || !self.imm_b,
            OpClass::Load | OpClass::Store | OpClass::MovCond | OpClass::Misc => true,
            OpClass::Branch => !self.opcode.one_operand(),
            OpClass::Jump => self.opcode is Jump,
            OpClass::Syscall | OpClass::Unimplemented => false,
        }
    }

    /// Whether operand `c` is read as a register.
    pub open spec fn c_is_register(self) -> bool {
        match self.opcode.class() {
            OpClass::Alu => !self.imm_c,
            OpClass::MovCond => true,
            OpClass::Misc => self.opcode is MADDU || self.opcode is MSUBU || self.opcode is MADD
                || self.opcode is MSUB,
            _ => false,
        }
    }

    /// Every register operand names an existing register.
    pub open spec fn wf(self) -> bool {
        &&& self.op_a < NUM_REGISTERS
        &&& self.b_is_register() ==> reg_of(self.op_b) < NUM_REGISTERS
        &&& self.c_is_register() ==> reg_of(self.op_c) < NUM_REGISTERS
    }

    /// Whether operand `b` is read as a register.
    pub fn reads_b(&self) -> (r: bool)
        ensures
            r == self.b_is_register(),
    {
        match self.opcode.op_class() {
            OpClass::Alu => !self.imm_c || !self.imm_b,
            OpClass::Load | OpClass::Store | OpClass::MovCond | OpClass::Misc => true,
            OpClass::Branch => !self.opcode.only_one_operand(),
            OpClass::Jump => matches!(self.opcode, Opcode::Jump),
            OpClass::Syscall | OpClass::Unimplemented => false,
        }
    }

    /// Whether operand `c` is read as a register.
    pub fn reads_c(&self) -> (r: bool)
        ensures
            r == self.c_is_register(),
    {
        match self.opcode.op_class() {
            OpClass::Alu => !self.imm_c,
            OpClass::MovCond => true,
            OpClass::Misc => matches!(self.opcode, Opcode::MADDU | Opcode::MSUBU | Opcode::MADD | Opcode::MSUB),
            _ => false,
        }
    }

    /// Whether every register operand names an existing register.
    pub fn is_valid(&self) -> (r: bool)
        ensures
            r == self.wf(),
    {
        (self.op_a as usize) < NUM_REGISTERS && (!self.reads_b() || ((self.op_b as u8) as usize)
            < NUM_REGISTERS) && (!self.reads_c() || ((self.op_c as u8) as usize) < NUM_REGISTERS)
    }

    /// Whether the instruction is an arithmetic or logic instruction.
    pub fn is_alu_instruction(&self) -> (r: bool)
        ensures
            r == (self.opcode.class() == OpClass::Alu),
    {
        self.opcode.op_class() == OpClass::Alu
    }

    /// Whether the instruction loads from memory.
    pub fn is_memory_load_instruction(&self) -> (r: bool)
        ensures
            r == (self.opcode.class() == OpClass::Load),
    {
        self.opcode.op_class() == OpClass::Load
    }

    /// Whether the instruction stores to memory.
    pub fn is_memory_store_instruction(&self) -> (r: bool)
        ensures
            r == (self.opcode.class() == OpClass::Store),
    {
        self.opcode.op_class() == OpClass::Store
    }

    /// Whether the instruction is a conditional branch.
    pub fn is_branch_instruction(&self) -> (r: bool)
        ensures
            r == (self.opcode.class() == OpClass::Branch),
    {
        self.opcode.op_class() == OpClass::Branch
    }

    /// Whether the instruction is a branch that compares a register with zero.
    pub fn is_branch_cmp_instruction(&self) -> (r: bool)
        ensures
            r == self.opcode.one_operand(),
    {
        self.opcode.only_one_operand()
    }

    /// Whether the instruction is a jump.
    pub fn is_jump_instruction(&self) -> (r: bool)
        ensures
            r == (self.opcode.class() == OpClass::Jump),
    {
        self.opcode.op_class() == OpClass::Jump
    }

    /// Whether the instruction is a conditional move.
    pub fn is_mov_cond_instruction(&self) -> (r: bool)
        ensures
            r == (self.opcode.class() == OpClass::MovCond),
    {
        self.opcode.op_class() == OpClass::MovCond
    }

    /// Whether the instruction is one of the bit-field, trap and multiply-accumulate instructions.
    pub fn is_misc_instruction(&self) -> (r: bool)
        ensures
            r == (self.opcode.class() == OpClass::Misc),
    {
        self.opcode.op_class() == OpClass::Misc
    }

    /// Whether the instruction is an unsigned multiply-accumulate.
    pub fn is_maddsubu_instruction(&self) -> (r: bool)
        ensures
            r == (self.opcode is MADDU || self.opcode is MSUBU),
    {
        matches!(self.opcode, Opcode::MADDU | Opcode::MSUBU)
    }

    /// Whether the instruction is a system call.
    pub fn is_syscall_instruction(&self) -> (r: bool)
        ensures
            r == (self.opcode is SYSCALL),
    {
        matches!(self.opcode, Opcode::SYSCALL)
    }
}

} // verus!
