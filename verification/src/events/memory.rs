//! Records of memory accesses.
use vstd::prelude::*;

verus! {

/// The last value of a word and when it was last accessed. A timestamp of zero means never.
#[derive(Debug, Clone, Copy, PartialEq, Eq, Structural)]
pub struct MemoryRecord {
    pub value: u32,
    pub timestamp: u64,
}

/// An entry of the oracle log: the value of a word before an access and its last timestamp.
#[derive(Debug, Clone, Copy, PartialEq, Eq, Structural)]
pub struct MemValue {
    pub clk: u64,
    pub value: u32,
}

impl Default for MemValue {
    /// A word that was never accessed.
    fn default() -> (r: Self)
        ensures
            r == (MemValue { clk: 0, value: 0 }),
    {
        MemValue { clk: 0, value: 0 }
    }
}

/// Where within an instruction an access happens. The accesses of one instruction have distinct
/// timestamps, memory first.
#[derive(Debug, Clone, Copy, PartialEq, Eq, Structural)]
pub enum MemoryAccessPosition {
    Memory,
    C,
    B,
    A,
    HI,
}

impl MemoryAccessPosition {
    /// The distance of the access from the start of the instruction.
    pub open spec fn offset(self) -> u32 {
        match self {
            MemoryAccessPosition::Memory => 0,
            MemoryAccessPosition::C => 1,
            MemoryAccessPosition::B => 2,
            MemoryAccessPosition::A => 3,
            MemoryAccessPosition::HI => 4,
        }
    }

    /// The distance of the access from the start of the instruction.
    pub fn index(&self) -> (r: u32)
        ensures
            r == self.offset(),
            r <= 4,
    {
        match self {
            MemoryAccessPosition::Memory => 0,
            MemoryAccessPosition::C => 1,
            MemoryAccessPosition::B => 2,
            MemoryAccessPosition::A => 3,
            MemoryAccessPosition::HI => 4,
        }
    }
}

/// A read: the value, and the timestamps of this access and the previous one.
#[derive(Debug, Clone, Copy, PartialEq, Eq, Structural)]
pub struct MemoryReadRecord {
    pub value: u32,
    pub timestamp: u64,
    pub prev_timestamp: u64,
}

impl MemoryReadRecord {
    /// Create a read record.
    pub fn new(value: u32, timestamp: u64, prev_timestamp: u64) -> (r: Self)
        ensures
            r == (MemoryReadRecord { value, timestamp, prev_timestamp }),
    {
        MemoryReadRecord { value, timestamp, prev_timestamp }
    }
}

/// A write: the new and the old value, and the timestamps of this access and the previous one.
#[derive(Debug, Clone, Copy, PartialEq, Eq, Structural)]
pub struct MemoryWriteRecord {
    pub value: u32,
    pub timestamp: u64,
    pub prev_value: u32,
    pub prev_timestamp: u64,
}

impl MemoryWriteRecord {
    /// Create a write record.
    pub fn new(value: u32, timestamp: u64, prev_value: u32, prev_timestamp: u64) -> (r: Self)
        ensures
            r == (MemoryWriteRecord { value, timestamp, prev_value, prev_timestamp }),
    {
        MemoryWriteRecord { value, timestamp, prev_value, prev_timestamp }
    }
}

impl Default for MemoryWriteRecord {
    /// A record of nothing.
    fn default() -> (r: Self)
        ensures
            r == (MemoryWriteRecord { value: 0, timestamp: 0, prev_value: 0, prev_timestamp: 0 }),
    {
        MemoryWriteRecord { value: 0, timestamp: 0, prev_value: 0, prev_timestamp: 0 }
    }
}

/// An access.
#[derive(Debug, Clone, Copy, PartialEq, Eq, Structural)]
pub enum MemoryRecordEnum {
    Read(MemoryReadRecord),
    Write(MemoryWriteRecord),
}

/// The value of a word at the start or at the end of the whole run.
#[derive(Debug, Clone, Copy, PartialEq, Eq, Structural)]
pub struct MemoryInitializeFinalizeEvent {
    pub addr: u32,
    pub value: u32,
    pub timestamp: u64,
}

impl MemoryInitializeFinalizeEvent {
    /// The event of a word that starts with the given value.
    pub fn initialize(addr: u32, value: u32) -> (r: Self)
        ensures
            r == (MemoryInitializeFinalizeEvent { addr, value, timestamp: 0 }),
    {
        MemoryInitializeFinalizeEvent { addr, value, timestamp: 0 }
    }

    /// The event of a word that ends with the given record.
    pub fn finalize_from_record(addr: u32, record: &MemoryRecord) -> (r: Self)
        ensures
            r == (MemoryInitializeFinalizeEvent {
                addr,
                value: record.value,
                timestamp: record.timestamp,
            }),
    {
        MemoryInitializeFinalizeEvent { addr, value: record.value, timestamp: record.timestamp }
    }
}

/// The first and the last access of a word within a shard.
#[derive(Debug, Clone, Copy, PartialEq, Eq, Structural)]
pub struct MemoryLocalEvent {
    pub addr: u32,
    pub initial_mem_access: MemoryRecord,
    pub final_mem_access: MemoryRecord,
}

} // verus!
