//! Errors that execution can end with.
use vstd::prelude::*;

use crate::opcode::Opcode;

verus! {

/// An error of an elliptic-curve operation.
#[derive(Clone, Copy, Debug, PartialEq, Eq, Structural)]
pub enum CurveError {
    /// The encoded coordinate does not belong to a point of the curve.
    InvalidPoint,
    /// The signature or the recovery id is malformed.
    InvalidSignature,
}

/// Errors that execution can end with.
#[derive(Clone, Debug, PartialEq, Eq)]
pub enum ExecutionError {
    /// The execution failed with a non-zero exit code.
    HaltWithNonZeroExitCode(u32),
    /// The execution failed with an invalid memory access.
    InvalidMemoryAccess(Opcode, u32),
    /// The execution failed with an unimplemented syscall.
    UnsupportedSyscall(u32),
    /// The execution failed with an unimplemented instruction.
    UnsupportedInstruction(u32),
    /// The execution failed with a breakpoint.
    Breakpoint(),
    /// The execution failed with an exceeded cycle limit.
    ExceededCycleLimit(u64),
    /// The execution failed because the syscall was called in unconstrained mode.
    InvalidSyscallUsage(u64),
    /// The execution failed with exception or trap.
    ExceptionOrTrap(),
    /// The execution failed with an access outside the guest memory.
    MemoryOutOfBoundsAccess(u64),
    /// The execution failed with invalid syscall args.
    InvalidSyscallArgs(),
    /// The execution failed with an unimplemented feature.
    Unimplemented(),
    /// The program ended in unconstrained mode.
    EndInUnconstrained(),
    /// The next program counter would be zero.
    NullPointerReference(),
    /// A buffer length did not match the expected size: expected, got.
    InvalidBufferLength(usize, usize),
    /// A buffer length was smaller than the minimum required: minimum, got.
    BufferLengthTooSmall(usize, usize),
    /// A hook received an unsupported elliptic curve identifier.
    UnsupportedEcrecoverCurveId(u8),
    /// Converting a slice to an array failed due to size mismatch.
    IntoArrayError(String),
    /// A finite field element was not reduced modulo the modulus: element, modulus.
    ElementNotCanonical(String, String),
    /// A finite field element was zero where a non-zero value was required.
    ElementZero(String),
    /// A quadratic non-residue was not in the valid range: value, modulus.
    NqrNotCanonical(String, String),
    /// A value did not satisfy the quadratic residue property: root, modulus, residue.
    NqrNotQuadratic(String, String, String),
    /// An elliptic curve operation failed.
    CurveError(CurveError),
}

} // verus!
