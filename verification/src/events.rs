//! Events: what one instruction, system call or memory access leaves in an execution record.

pub mod instr;
pub mod memory;
pub mod precompiles;
pub mod syscall;

pub use instr::{
    AluEvent, BranchEvent, BumpClkHighEvent, CompAluEvent, JumpEvent, MemInstrEvent, MiscEvent,
    MovCondEvent,
};
pub use memory::{
    MemValue, MemoryAccessPosition, MemoryInitializeFinalizeEvent, MemoryLocalEvent,
    MemoryReadRecord, MemoryRecord, MemoryRecordEnum, MemoryWriteRecord,
};
pub use precompiles::{
    EllipticCurveAddEvent, EllipticCurveDecompressEvent, EllipticCurveDoubleEvent,
    KeccakSpongeEvent, PrecompileEvent, PrecompileEvents,
};
pub use syscall::SyscallEvent;
