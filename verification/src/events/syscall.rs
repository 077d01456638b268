//! Events of system calls.
use vstd::prelude::*;

use super::memory::{MemoryRecordEnum, MemoryWriteRecord};

verus! {

/// A system call.
#[derive(Debug, Clone, Copy, PartialEq, Eq, Structural)]
pub struct SyscallEvent {
    /// The program counter.
    pub pc: u32,
    /// The next program counter.
    pub next_pc: u32,
    /// The shard number.
    pub shard: u32,
    /// The clock cycle.
    pub clk: u64,
    /// The write of the result register.
    pub a_record: MemoryWriteRecord,
    /// Whether the write of the result register happened.
    pub a_record_is_real: bool,
    /// The read of the first argument, when the event backs a retired instruction.
    pub b_record: Option<MemoryRecordEnum>,
    /// The read of the second argument, when the event backs a retired instruction.
    pub c_record: Option<MemoryRecordEnum>,
    /// The number of the call.
    pub syscall_id: u32,
    /// The first argument.
    pub arg1: u32,
    /// The second argument.
    pub arg2: u32,
}

} // verus!
