//! Errors of ahead-of-time compilation.
use vstd::prelude::*;

use crate::opcode::Opcode;

verus! {

/// Errors of ahead-of-time compilation.
#[derive(Debug)]
pub enum AotError {
    /// The opcode cannot be compiled.
    NotSupported,
    /// The instruction is malformed.
    InvalidInstruction,
    /// The program is at fault.
    Static(StaticProgramError),
    /// Anything else.
    Other(String),
}

/// Errors in the program that can be statically analyzed before runtime.
#[derive(Debug)]
pub enum StaticProgramError {
    /// Invalid instruction at a program counter.
    InvalidInstruction(u32),
    /// Too many executors.
    TooManyExecutors,
    /// The opcode at a program counter is not enabled.
    DisabledOperation { pc: u32, opcode: Opcode },
    /// No executor for an opcode.
    ExecutorNotFound { opcode: Opcode },
    /// The temporary file could not be created.
    FailToCreateTemporaryFile { err: String },
    /// The temporary file could not be written.
    FailToWriteTemporaryFile { err: String },
    /// The dynamic library could not be generated.
    FailToGenerateDynamicLibrary { err: String },
}

impl vstd::std_specs::convert::FromSpecImpl<StaticProgramError> for AotError {
    open spec fn obeys_from_spec() -> bool {
        true
    }

    open spec fn from_spec(err: StaticProgramError) -> Self {
        AotError::Static(err)
    }
}

impl From<StaticProgramError> for AotError {
    fn from(err: StaticProgramError) -> (r: Self) {
        AotError::Static(err)
    }
}

} // verus!
