//! A MIPS virtual machine: instruction semantics, paged guest memory, an interpreter that logs
//! the preimage of every memory access, shard splicing, trace cost estimation, execution records,
//! runtime hooks, and an ahead-of-time x86-64 assembly generator.
use vstd::prelude::*;

pub mod agreement;
pub mod air;
pub mod aot;
pub mod appending;
pub mod arithmetic;
pub mod bigint;
pub mod boundary;
pub mod calls;
pub mod chips;
pub mod collections;
pub mod consts;
pub mod core_vm;
pub mod cost;
pub mod course;
pub mod curves;
pub mod dependencies;
pub mod errors;
pub mod events;
pub mod globals;
pub mod hook;
pub mod instruction;
pub mod keccak;
pub mod laws;
pub mod machine;
pub mod memory;
pub mod minimal;
pub mod opcode;
pub mod pipeline;
pub mod precompiles;
pub mod prices;
pub mod program;
pub mod record;
pub mod register;
pub mod replay;
pub mod sha256;
pub mod sources;
pub mod splicing;
pub mod split;
pub mod stamps;
pub mod starts;
pub mod state;
pub mod steps;
pub mod syscalls;
pub mod tallies;
pub mod trace;
pub mod tracing;
pub mod vm;

verus! {

/// The tag of an [`OptionU32`].
#[derive(Debug, Copy, Clone, PartialEq, Eq, Structural)]
pub enum OptionValTag {
    Present,
    Absent,
}

/// An optional word with a fixed layout: a tag and a value, the value being zero when absent.
#[derive(Debug, Copy, Clone, PartialEq, Eq, Structural)]
pub struct OptionU32 {
    pub tag: OptionValTag,
    pub value: u32,
}

impl vstd::std_specs::convert::FromSpecImpl<Option<u32>> for OptionU32 {
    open spec fn obeys_from_spec() -> bool {
        true
    }

    open spec fn from_spec(val: Option<u32>) -> Self {
        match val {
            Some(value) => OptionU32 { tag: OptionValTag::Present, value },
            None => OptionU32 { tag: OptionValTag::Absent, value: 0 },
        }
    }
}

impl From<Option<u32>> for OptionU32 {
    fn from(val: Option<u32>) -> (r: Self) {
        match val {
            Some(value) => OptionU32 { tag: OptionValTag::Present, value },
            None => OptionU32 { tag: OptionValTag::Absent, value: 0 },
        }
    }
}

} // verus!
