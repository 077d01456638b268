//! The register file layout: 32 general registers, `LO`, `HI`, and the heap bookkeeping registers.
use vstd::prelude::*;

verus! {

/// The number of registers.
pub const NUM_REGISTERS: usize = 36;

/// A register.
#[derive(Clone, Copy, Debug, PartialEq, Eq, Structural, Hash)]
pub enum Register {
    ZERO,
    AT,
    V0,
    V1,
    A0,
    A1,
    A2,
    A3,
    T0,
    T1,
    T2,
    T3,
    T4,
    T5,
    T6,
    T7,
    S0,
    S1,
    S2,
    S3,
    S4,
    S5,
    S6,
    S7,
    T8,
    T9,
    K0,
    K1,
    GP,
    SP,
    FP,
    RA,
    LO,
    HI,
    BRK,
    HEAP,
}

impl Register {
    /// The number of the register.
    pub open spec fn number(self) -> u8 {
        match self {
            Register::ZERO => 0,
            Register::AT => 1,
            Register::V0 => 2,
            Register::V1 => 3,
            Register::A0 => 4,
            Register::A1 => 5,
            Register::A2 => 6,
            Register::A3 => 7,
            Register::T0 => 8,
            Register::T1 => 9,
            Register::T2 => 10,
            Register::T3 => 11,
            Register::T4 => 12,
            Register::T5 => 13,
            Register::T6 => 14,
            Register::T7 => 15,
            Register::S0 => 16,
            Register::S1 => 17,
            Register::S2 => 18,
            Register::S3 => 19,
            Register::S4 => 20,
            Register::S5 => 21,
            Register::S6 => 22,
            Register::S7 => 23,
            Register::T8 => 24,
            Register::T9 => 25,
            Register::K0 => 26,
            Register::K1 => 27,
            Register::GP => 28,
            Register::SP => 29,
            Register::FP => 30,
            Register::RA => 31,
            Register::LO => 32,
            Register::HI => 33,
            Register::BRK => 34,
            Register::HEAP => 35,
        }
    }

    /// The number of the register.
    pub fn index(&self) -> (r: u8)
        ensures
            r == self.number(),
            r < NUM_REGISTERS,
    {
        match self {
            Register::ZERO => 0,
            Register::AT => 1,
            Register::V0 => 2,
            Register::V1 => 3,
            Register::A0 => 4,
            Register::A1 => 5,
            Register::A2 => 6,
            Register::A3 => 7,
            Register::T0 => 8,
            Register::T1 => 9,
            Register::T2 => 10,
            Register::T3 => 11,
            Register::T4 => 12,
            Register::T5 => 13,
            Register::T6 => 14,
            Register::T7 => 15,
            Register::S0 => 16,
            Register::S1 => 17,
            Register::S2 => 18,
            Register::S3 => 19,
            Register::S4 => 20,
            Register::S5 => 21,
            Register::S6 => 22,
            Register::S7 => 23,
            Register::T8 => 24,
            Register::T9 => 25,
            Register::K0 => 26,
            Register::K1 => 27,
            Register::GP => 28,
            Register::SP => 29,
            Register::FP => 30,
            Register::RA => 31,
            Register::LO => 32,
            Register::HI => 33,
            Register::BRK => 34,
            Register::HEAP => 35,
        }
    }
}

} // verus!
