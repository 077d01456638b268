//! Events of retired instructions.
use vstd::prelude::*;

use super::memory::{MemoryRecordEnum, MemoryWriteRecord};
use crate::opcode::Opcode;

verus! {

/// Emitted when the clock jumps to the start of the next window before an instruction.
#[derive(Debug, Clone, Copy, PartialEq, Eq, Structural)]
pub struct BumpClkHighEvent {
    /// The clock before the jump.
    pub prev_clk: u64,
    /// The size of the jump.
    pub increment: u64,
    /// The pc of the instruction about to execute.
    pub pc: u32,
    /// The pc of the instruction after it.
    pub next_pc: u32,
}

/// An arithmetic or logic instruction.
#[derive(Debug, Clone, Copy, PartialEq, Eq, Structural)]
pub struct AluEvent {
    /// The clock cycle.
    pub clk: u64,
    /// The program counter.
    pub pc: u32,
    /// The next program counter.
    pub next_pc: u32,
    /// The opcode.
    pub opcode: Opcode,
    /// The high word of the result, for the opcodes that have one.
    pub hi: u32,
    /// The first operand value.
    pub a: u32,
    /// The second operand value.
    pub b: u32,
    /// The third operand value.
    pub c: u32,
    /// The access of operand `a`.
    pub a_record: Option<MemoryRecordEnum>,
    /// The access of operand `b`, if it is a register.
    pub b_record: Option<MemoryRecordEnum>,
    /// The access of operand `c`, if it is a register.
    pub c_record: Option<MemoryRecordEnum>,
}

impl AluEvent {
    /// Create an event without a high word, outside the clock.
    pub fn new(pc: u32, opcode: Opcode, a: u32, b: u32, c: u32) -> (r: Self)
        requires
            pc + 4 <= u32::MAX,
        ensures
            r == (AluEvent {
                clk: 0,
                pc,
                next_pc: (pc + 4) as u32,
                opcode,
                hi: 0,
                a,
                b,
                c,
                a_record: None,
                b_record: None,
                c_record: None,
            }),
    {
        AluEvent {
            clk: 0,
            pc,
            next_pc: pc + 4,
            opcode,
            hi: 0,
            a,
            b,
            c,
            a_record: None,
            b_record: None,
            c_record: None,
        }
    }

    /// Create an event with a high word, outside the clock.
    pub fn new_with_hi(pc: u32, opcode: Opcode, a: u32, b: u32, c: u32, hi: u32) -> (r: Self)
        requires
            pc + 4 <= u32::MAX,
        ensures
            r == (AluEvent {
                clk: 0,
                pc,
                next_pc: (pc + 4) as u32,
                opcode,
                hi,
                a,
                b,
                c,
                a_record: None,
                b_record: None,
                c_record: None,
            }),
    {
        AluEvent {
            clk: 0,
            pc,
            next_pc: pc + 4,
            opcode,
            hi,
            a,
            b,
            c,
            a_record: None,
            b_record: None,
            c_record: None,
        }
    }
}

/// A multiplication or division, which may write `HI`.
#[derive(Debug, Clone, Copy, PartialEq, Eq, Structural)]
pub struct CompAluEvent {
    /// The clock cycle.
    pub clk: u64,
    /// The program counter.
    pub pc: u32,
    /// The next program counter.
    pub next_pc: u32,
    /// The opcode.
    pub opcode: Opcode,
    /// The high word of the result, for the opcodes that have one.
    pub hi: u32,
    /// The first operand value.
    pub a: u32,
    /// The second operand value.
    pub b: u32,
    /// The third operand value.
    pub c: u32,
    /// The write of `HI`.
    pub hi_record: MemoryWriteRecord,
    /// Whether the write of `HI` happened.
    pub hi_record_is_real: bool,
    /// The access of operand `a`.
    pub a_record: Option<MemoryRecordEnum>,
    /// The access of operand `b`, if it is a register.
    pub b_record: Option<MemoryRecordEnum>,
    /// The access of operand `c`, if it is a register.
    pub c_record: Option<MemoryRecordEnum>,
}

impl CompAluEvent {
    /// Create an event without a high word, outside the clock.
    pub fn new(pc: u32, opcode: Opcode, a: u32, b: u32, c: u32) -> (r: Self)
        requires
            pc + 4 <= u32::MAX,
        ensures
            r == (CompAluEvent {
                clk: 0,
                pc,
                next_pc: (pc + 4) as u32,
                opcode,
                hi: 0,
                a,
                b,
                c,
                hi_record: MemoryWriteRecord { value: 0, timestamp: 0, prev_value: 0, prev_timestamp: 0 },
                hi_record_is_real: false,
                a_record: None,
                b_record: None,
                c_record: None,
            }),
    {
        CompAluEvent {
            clk: 0,
            pc,
            next_pc: pc + 4,
            opcode,
            hi: 0,
            a,
            b,
            c,
            hi_record: MemoryWriteRecord::default(),
            hi_record_is_real: false,
            a_record: None,
            b_record: None,
            c_record: None,
        }
    }

    /// Create an event with a high word, outside the clock.
    pub fn new_with_hi(pc: u32, opcode: Opcode, a: u32, b: u32, c: u32, hi: u32) -> (r: Self)
        requires
            pc + 4 <= u32::MAX,
        ensures
            r == (CompAluEvent {
                clk: 0,
                pc,
                next_pc: (pc + 4) as u32,
                opcode,
                hi,
                a,
                b,
                c,
                hi_record: MemoryWriteRecord { value: 0, timestamp: 0, prev_value: 0, prev_timestamp: 0 },
                hi_record_is_real: false,
                a_record: None,
                b_record: None,
                c_record: None,
            }),
    {
        CompAluEvent {
            clk: 0,
            pc,
            next_pc: pc + 4,
            opcode,
            hi,
            a,
            b,
            c,
            hi_record: MemoryWriteRecord::default(),
            hi_record_is_real: false,
            a_record: None,
            b_record: None,
            c_record: None,
        }
    }
}

/// A load or store.
#[derive(Debug, Clone, Copy, PartialEq, Eq, Structural)]
pub struct MemInstrEvent {
    /// The clock cycle.
    pub clk: u64,
    /// The program counter.
    pub pc: u32,
    /// The next program counter.
    pub next_pc: u32,
    /// The opcode.
    pub opcode: Opcode,
    /// The first operand value.
    pub a: u32,
    /// The second operand value.
    pub b: u32,
    /// The third operand value.
    pub c: u32,
    /// The access of the word.
    pub mem_access: MemoryRecordEnum,
    /// The value of operand `a` before the instruction.
    pub prev_a_val: u32,
    /// The access of operand `a`.
    pub a_record: Option<MemoryRecordEnum>,
    /// The access of operand `b`, if it is a register.
    pub b_record: Option<MemoryRecordEnum>,
    /// The access of operand `c`, if it is a register.
    pub c_record: Option<MemoryRecordEnum>,
}

impl MemInstrEvent {
    /// Create an event.
    pub fn new(clk: u64, pc: u32, next_pc: u32, opcode: Opcode, a: u32, b: u32, c: u32, mem_access: MemoryRecordEnum, prev_a_val: u32) -> (r: Self)
        ensures
            r == (MemInstrEvent {
                clk,
                pc,
                next_pc,
                opcode,
                a,
                b,
                c,
                mem_access,
                prev_a_val,
                a_record: None,
                b_record: None,
                c_record: None,
            }),
    {
        MemInstrEvent {
            clk,
            pc,
            next_pc,
            opcode,
            a,
            b,
            c,
            mem_access,
            prev_a_val,
            a_record: None,
            b_record: None,
            c_record: None,
        }
    }
}

/// A branch.
#[derive(Debug, Clone, Copy, PartialEq, Eq, Structural)]
pub struct BranchEvent {
    /// The clock cycle.
    pub clk: u64,
    /// The program counter.
    pub pc: u32,
    /// The next program counter.
    pub next_pc: u32,
    /// The program counter after the next one.
    pub next_next_pc: u32,
    /// The opcode.
    pub opcode: Opcode,
    /// The first operand value.
    pub a: u32,
    /// The second operand value.
    pub b: u32,
    /// The third operand value.
    pub c: u32,
    /// The access of operand `a`.
    pub a_record: Option<MemoryRecordEnum>,
    /// The access of operand `b`, if it is a register.
    pub b_record: Option<MemoryRecordEnum>,
    /// The access of operand `c`, if it is a register.
    pub c_record: Option<MemoryRecordEnum>,
}

impl BranchEvent {
    /// Create an event.
    pub fn new(clk: u64, pc: u32, next_pc: u32, next_next_pc: u32, opcode: Opcode, a: u32, b: u32, c: u32) -> (r: Self)
        ensures
            r == (BranchEvent {
                clk,
                pc,
                next_pc,
                next_next_pc,
                opcode,
                a,
                b,
                c,
                a_record: None,
                b_record: None,
                c_record: None,
            }),
    {
        BranchEvent {
            clk,
            pc,
            next_pc,
            next_next_pc,
            opcode,
            a,
            b,
            c,
            a_record: None,
            b_record: None,
            c_record: None,
        }
    }
}

/// A jump.
#[derive(Debug, Clone, Copy, PartialEq, Eq, Structural)]
pub struct JumpEvent {
    /// The clock cycle.
    pub clk: u64,
    /// The program counter.
    pub pc: u32,
    /// The next program counter.
    pub next_pc: u32,
    /// The program counter after the next one.
    pub next_next_pc: u32,
    /// The opcode.
    pub opcode: Opcode,
    /// The first operand value.
    pub a: u32,
    /// The second operand value.
    pub b: u32,
    /// The third operand value.
    pub c: u32,
    /// The access of operand `a`.
    pub a_record: Option<MemoryRecordEnum>,
    /// The access of operand `b`, if it is a register.
    pub b_record: Option<MemoryRecordEnum>,
    /// The access of operand `c`, if it is a register.
    pub c_record: Option<MemoryRecordEnum>,
}

impl JumpEvent {
    /// Create an event.
    pub fn new(clk: u64, pc: u32, next_pc: u32, next_next_pc: u32, opcode: Opcode, a: u32, b: u32, c: u32) -> (r: Self)
        ensures
            r == (JumpEvent {
                clk,
                pc,
                next_pc,
                next_next_pc,
                opcode,
                a,
                b,
                c,
                a_record: None,
                b_record: None,
                c_record: None,
            }),
    {
        JumpEvent {
            clk,
            pc,
            next_pc,
            next_next_pc,
            opcode,
            a,
            b,
            c,
            a_record: None,
            b_record: None,
            c_record: None,
        }
    }
}

/// A bit-field, trap or multiply-accumulate instruction.
#[derive(Debug, Clone, Copy, PartialEq, Eq, Structural)]
pub struct MiscEvent {
    /// The clock cycle.
    pub clk: u64,
    /// The program counter.
    pub pc: u32,
    /// The next program counter.
    pub next_pc: u32,
    /// The opcode.
    pub opcode: Opcode,
    /// The first operand value.
    pub a: u32,
    /// The second operand value.
    pub b: u32,
    /// The third operand value.
    pub c: u32,
    /// The value of operand `a` before the instruction.
    pub prev_a: u32,
    /// The write of `HI`.
    pub hi_record: MemoryWriteRecord,
    /// The access of operand `a`.
    pub a_record: Option<MemoryRecordEnum>,
    /// The access of operand `b`, if it is a register.
    pub b_record: Option<MemoryRecordEnum>,
    /// The access of operand `c`, if it is a register.
    pub c_record: Option<MemoryRecordEnum>,
}

impl MiscEvent {
    /// Create an event.
    pub fn new(clk: u64, pc: u32, next_pc: u32, opcode: Opcode, a: u32, b: u32, c: u32, prev_a: u32, hi_record: MemoryWriteRecord) -> (r: Self)
        ensures
            r == (MiscEvent {
                clk,
                pc,
                next_pc,
                opcode,
                a,
                b,
                c,
                prev_a,
                hi_record,
                a_record: None,
                b_record: None,
                c_record: None,
            }),
    {
        MiscEvent {
            clk,
            pc,
            next_pc,
            opcode,
            a,
            b,
            c,
            prev_a,
            hi_record,
            a_record: None,
            b_record: None,
            c_record: None,
        }
    }
}

/// A conditional move or a byte swap.
#[derive(Debug, Clone, Copy, PartialEq, Eq, Structural)]
pub struct MovCondEvent {
    /// The clock cycle.
    pub clk: u64,
    /// The program counter.
    pub pc: u32,
    /// The next program counter.
    pub next_pc: u32,
    /// The opcode.
    pub opcode: Opcode,
    /// The first operand value.
    pub a: u32,
    /// The second operand value.
    pub b: u32,
    /// The third operand value.
    pub c: u32,
    /// The value of operand `a` before the instruction.
    pub prev_a: u32,
    /// The access of operand `a`.
    pub a_record: Option<MemoryRecordEnum>,
    /// The access of operand `b`, if it is a register.
    pub b_record: Option<MemoryRecordEnum>,
    /// The access of operand `c`, if it is a register.
    pub c_record: Option<MemoryRecordEnum>,
}

impl MovCondEvent {
    /// Create an event.
    pub fn new(clk: u64, pc: u32, next_pc: u32, opcode: Opcode, a: u32, b: u32, c: u32, prev_a: u32) -> (r: Self)
        ensures
            r == (MovCondEvent {
                clk,
                pc,
                next_pc,
                opcode,
                a,
                b,
                c,
                prev_a,
                a_record: None,
                b_record: None,
                c_record: None,
            }),
    {
        MovCondEvent {
            clk,
            pc,
            next_pc,
            opcode,
            a,
            b,
            c,
            prev_a,
            a_record: None,
            b_record: None,
            c_record: None,
        }
    }
}

} // verus!
