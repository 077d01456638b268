//! The instruction set.
use vstd::prelude::*;

verus! {

/// The operation an instruction performs.
#[allow(non_camel_case_types)]
#[derive(Clone, Copy, Debug, PartialEq, Eq, Structural, Hash)]
pub enum Opcode {
    ADD,
    SUB,
    MULT,
    MULTU,
    MUL,
    DIV,
    DIVU,
    MOD,
    MODU,
    SLL,
    SRL,
    SRA,
    ROR,
    SLT,
    SLTU,
    AND,
    OR,
    XOR,
    NOR,
    CLZ,
    CLO,
    BEQ,
    BGEZ,
    BGTZ,
    BLEZ,
    BLTZ,
    BNE,
    MEQ,
    MNE,
    WSBH,
    Jump,
    Jumpi,
    JumpDirect,
    SYSCALL,
    LB,
    LH,
    LWL,
    LW,
    LL,
    LBU,
    LHU,
    LWR,
    SB,
    SH,
    SWL,
    SW,
    SWR,
    SC,
    EXT,
    INS,
    SEXT,
    TEQ,
    MADDU,
    MSUBU,
    MADD,
    MSUB,
    UNIMPL,
}

/// The number of opcodes.
pub const NUM_OPCODES: usize = 57;

/// The family an opcode belongs to. Every opcode belongs to exactly one.
#[derive(Clone, Copy, Debug, PartialEq, Eq, Structural)]
pub enum OpClass {
    Alu,
    Load,
    Store,
    Branch,
    Jump,
    MovCond,
    Misc,
    Syscall,
    Unimplemented,
}

impl Opcode {
    /// The family of this opcode.
    pub open spec fn class(self) -> OpClass {
        match self {
            Opcode::ADD | Opcode::SUB | Opcode::MULT | Opcode::MULTU | Opcode::MUL | Opcode::DIV
            | Opcode::DIVU | Opcode::MOD | Opcode::MODU | Opcode::SLL | Opcode::SRL | Opcode::SRA
            | Opcode::ROR | Opcode::SLT | Opcode::SLTU | Opcode::AND | Opcode::OR | Opcode::XOR
            | Opcode::NOR | Opcode::CLZ | Opcode::CLO => OpClass::Alu,
            Opcode::LB | Opcode::LH | Opcode::LWL | Opcode::LW | Opcode::LL | Opcode::LBU
            | Opcode::LHU | Opcode::LWR => OpClass::Load,
            Opcode::SB | Opcode::SH | Opcode::SWL | Opcode::SW | Opcode::SWR
            | Opcode::SC => OpClass::Store,
            Opcode::BEQ | Opcode::BGEZ | Opcode::BGTZ | Opcode::BLEZ | Opcode::BLTZ
            | Opcode::BNE => OpClass::Branch,
            Opcode::Jump | Opcode::Jumpi | Opcode::JumpDirect => OpClass::Jump,
            Opcode::MEQ | Opcode::MNE => OpClass::MovCond,
            Opcode::WSBH | Opcode::EXT | Opcode::INS | Opcode::SEXT | Opcode::TEQ | Opcode::MADDU
            | Opcode::MSUBU | Opcode::MADD | Opcode::MSUB => OpClass::Misc,
            Opcode::SYSCALL => OpClass::Syscall,
            Opcode::UNIMPL => OpClass::Unimplemented,
        }
    }

    /// The family of this opcode.
    pub fn op_class(&self) -> (r: OpClass)
        ensures
            r == self.class(),
    {
        match self {
            Opcode::ADD | Opcode::SUB | Opcode::MULT | Opcode::MULTU | Opcode::MUL | Opcode::DIV
            | Opcode::DIVU | Opcode::MOD | Opcode::MODU | Opcode::SLL | Opcode::SRL | Opcode::SRA
            | Opcode::ROR | Opcode::SLT | Opcode::SLTU | Opcode::AND | Opcode::OR | Opcode::XOR
            | Opcode::NOR | Opcode::CLZ | Opcode::CLO => OpClass::Alu,
            Opcode::LB | Opcode::LH | Opcode::LWL | Opcode::LW | Opcode::LL | Opcode::LBU
            | Opcode::LHU | Opcode::LWR => OpClass::Load,
            Opcode::SB | Opcode::SH | Opcode::SWL | Opcode::SW | Opcode::SWR
            | Opcode::SC => OpClass::Store,
            Opcode::BEQ | Opcode::BGEZ | Opcode::BGTZ | Opcode::BLEZ | Opcode::BLTZ
            | Opcode::BNE => OpClass::Branch,
            Opcode::Jump | Opcode::Jumpi | Opcode::JumpDirect => OpClass::Jump,
            Opcode::MEQ | Opcode::MNE => OpClass::MovCond,
            Opcode::WSBH | Opcode::EXT | Opcode::INS | Opcode::SEXT | Opcode::TEQ | Opcode::MADDU
            | Opcode::MSUBU | Opcode::MADD | Opcode::MSUB => OpClass::Misc,
            Opcode::SYSCALL => OpClass::Syscall,
            Opcode::UNIMPL => OpClass::Unimplemented,
        }
    }

    /// The branches that compare one register with zero.
    pub open spec fn one_operand(self) -> bool {
        self is BGEZ || self is BGTZ || self is BLEZ || self is BLTZ
    }

    /// Whether the opcode reads a single register operand.
    pub fn only_one_operand(&self) -> (r: bool)
        ensures
            r == self.one_operand(),
    {
        matches!(self, Opcode::BGEZ | Opcode::BGTZ | Opcode::BLEZ | Opcode::BLTZ)
    }

    /// The multiplications and divisions whose result goes to `LO` and `HI`.
    pub open spec fn lo_hi(self) -> bool {
        self is MULT || self is MULTU || self is DIV || self is DIVU
    }

    /// Whether the result of the opcode is the pair of `LO` and `HI`.
    pub fn is_use_lo_hi_alu(&self) -> (r: bool)
        ensures
            r == self.lo_hi(),
    {
        matches!(self, Opcode::MULT | Opcode::MULTU | Opcode::DIV | Opcode::DIVU)
    }

    /// The position of the opcode in the instruction set.
    pub open spec fn ordinal(self) -> u32 {
        match self {
            Opcode::ADD => 0,
            Opcode::SUB => 1,
            Opcode::MULT => 2,
            Opcode::MULTU => 3,
            Opcode::MUL => 4,
            Opcode::DIV => 5,
            Opcode::DIVU => 6,
            Opcode::MOD => 7,
            Opcode::MODU => 8,
            Opcode::SLL => 9,
            Opcode::SRL => 10,
            Opcode::SRA => 11,
            Opcode::ROR => 12,
            Opcode::SLT => 13,
            Opcode::SLTU => 14,
            Opcode::AND => 15,
            Opcode::OR => 16,
            Opcode::XOR => 17,
            Opcode::NOR => 18,
            Opcode::CLZ => 19,
            Opcode::CLO => 20,
            Opcode::BEQ => 21,
            Opcode::BGEZ => 22,
            Opcode::BGTZ => 23,
            Opcode::BLEZ => 24,
            Opcode::BLTZ => 25,
            Opcode::BNE => 26,
            Opcode::MEQ => 27,
            Opcode::MNE => 28,
            Opcode::WSBH => 29,
            Opcode::Jump => 30,
            Opcode::Jumpi => 31,
            Opcode::JumpDirect => 32,
            Opcode::SYSCALL => 33,
            Opcode::LB => 34,
            Opcode::LH => 35,
            Opcode::LWL => 36,
            Opcode::LW => 37,
            Opcode::LL => 38,
            Opcode::LBU => 39,
            Opcode::LHU => 40,
            Opcode::LWR => 41,
            Opcode::SB => 42,
            Opcode::SH => 43,
            Opcode::SWL => 44,
            Opcode::SW => 45,
            Opcode::SWR => 46,
            Opcode::SC => 47,
            Opcode::EXT => 48,
            Opcode::INS => 49,
            Opcode::SEXT => 50,
            Opcode::TEQ => 51,
            Opcode::MADDU => 52,
            Opcode::MSUBU => 53,
            Opcode::MADD => 54,
            Opcode::MSUB => 55,
            Opcode::UNIMPL => 56,
        }
    }

    /// The position of the opcode in the instruction set.
    pub fn index(&self) -> (r: u32)
        ensures
            r == self.ordinal(),
            r < NUM_OPCODES,
    {
        match self {
            Opcode::ADD => 0,
            Opcode::SUB => 1,
            Opcode::MULT => 2,
            Opcode::MULTU => 3,
            Opcode::MUL => 4,
            Opcode::DIV => 5,
            Opcode::DIVU => 6,
            Opcode::MOD => 7,
            Opcode::MODU => 8,
            Opcode::SLL => 9,
            Opcode::SRL => 10,
            Opcode::SRA => 11,
            Opcode::ROR => 12,
            Opcode::SLT => 13,
            Opcode::SLTU => 14,
            Opcode::AND => 15,
            Opcode::OR => 16,
            Opcode::XOR => 17,
            Opcode::NOR => 18,
            Opcode::CLZ => 19,
            Opcode::CLO => 20,
            Opcode::BEQ => 21,
            Opcode::BGEZ => 22,
            Opcode::BGTZ => 23,
            Opcode::BLEZ => 24,
            Opcode::BLTZ => 25,
            Opcode::BNE => 26,
            Opcode::MEQ => 27,
            Opcode::MNE => 28,
            Opcode::WSBH => 29,
            Opcode::Jump => 30,
            Opcode::Jumpi => 31,
            Opcode::JumpDirect => 32,
            Opcode::SYSCALL => 33,
            Opcode::LB => 34,
            Opcode::LH => 35,
            Opcode::LWL => 36,
            Opcode::LW => 37,
            Opcode::LL => 38,
            Opcode::LBU => 39,
            Opcode::LHU => 40,
            Opcode::LWR => 41,
            Opcode::SB => 42,
            Opcode::SH => 43,
            Opcode::SWL => 44,
            Opcode::SW => 45,
            Opcode::SWR => 46,
            Opcode::SC => 47,
            Opcode::EXT => 48,
            Opcode::INS => 49,
            Opcode::SEXT => 50,
            Opcode::TEQ => 51,
            Opcode::MADDU => 52,
            Opcode::MSUBU => 53,
            Opcode::MADD => 54,
            Opcode::MSUB => 55,
            Opcode::UNIMPL => 56,
        }
    }
}

/// Distinct opcodes have distinct positions.
pub proof fn opcode_ordinals_are_distinct(a: Opcode, b: Opcode)
    ensures
        a.ordinal() == b.ordinal() ==> a == b,
{
}

} // verus!
