//! Limits and fixed increments of the machine.
use vstd::prelude::*;

verus! {

/// The maximum number of instructions in a program.
pub const MAX_PROGRAM_SIZE: usize = 0x40_0000;

/// The default increment of the program counter, used by every instruction but branches and jumps.
pub const DEFAULT_PC_INC: u32 = 4;

/// Marks an event that does not come from the instruction stream. A valid pc is divisible by 4.
pub const UNUSED_PC: u32 = 1;

/// The clock advances by this much for every retired instruction.
pub const DEFAULT_CLK_INC: u32 = 5;

/// Width of one clock window: `clk % CORE_SHARD_CLK_LIMIT` is the low part of the clock and
/// `clk / CORE_SHARD_CLK_LIMIT` the high part.
pub const CORE_SHARD_CLK_LIMIT: u64 = 0x100_0000;

/// Base-two logarithm of the row count that every committed trace is padded to.
pub const CORE_MAX_LOG_ROW_COUNT: u64 = 22;

/// Safety margin between a per-instruction height estimate and a chip's padded row count.
pub const CORE_SHARD_HEIGHT_HEADROOM: u64 = 0x1_0000;

/// No chip may reach this many rows within one shard.
pub const CORE_SHARD_HEIGHT_THRESHOLD: u64 = 0x3F_0000;

/// The guest address space ends here.
pub const MAX_MEMORY: usize = 0x7F00_0000;

/// The heap may grow by at most this many bytes past the initial break.
pub const MAX_HEAP_SIZE: u32 = 0x4000_0000;

/// The prime of the base field: `2^31 - 2^24 + 1`.
pub const FIELD_PRIME: u64 = 0x7F00_0001;

/// The height ceiling is the padded row count less the headroom.
pub proof fn height_threshold_leaves_headroom()
    ensures
        CORE_SHARD_HEIGHT_THRESHOLD + CORE_SHARD_HEIGHT_HEADROOM == vstd::arithmetic::power2::pow2(
            CORE_MAX_LOG_ROW_COUNT as nat,
        ),
{
    vstd::arithmetic::power2::lemma2_to64();
}

} // verus!
