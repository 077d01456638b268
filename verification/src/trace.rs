//! What a run leaves behind for its replay.
use std::sync::Arc;

use vstd::prelude::*;

use crate::events::MemValue;
use crate::sources::MemReads;

verus! {

/// A starting point, an end of the clock, and the log of the accesses in between.
pub trait MinimalTrace: Sized {
    /// The registers at the start.
    spec fn registers_at_start(&self) -> Seq<u32>;

    /// The program counter at the start.
    spec fn pc_at_start(&self) -> u32;

    /// The clock at the start.
    spec fn clk_at_start(&self) -> u64;

    /// The clock at the end.
    spec fn clk_at_end(&self) -> u64;

    /// The log.
    spec fn entries(&self) -> Seq<MemValue>;

    /// The trace is well formed.
    spec fn wf(&self) -> bool;

    /// The registers at the start.
    fn start_registers(&self) -> (r: [u32; 36])
        ensures
            r@ == self.registers_at_start(),
    ;

    /// The program counter at the start.
    fn pc_start(&self) -> (r: u32)
        ensures
            r == self.pc_at_start(),
    ;

    /// The clock at the start.
    fn clk_start(&self) -> (r: u64)
        ensures
            r == self.clk_at_start(),
    ;

    /// The clock at the end.
    fn clk_end(&self) -> (r: u64)
        ensures
            r == self.clk_at_end(),
    ;

    /// The number of logged accesses.
    fn num_mem_reads(&self) -> (r: usize)
        requires
            self.wf(),
        ensures
            r == self.entries().len(),
    ;

    /// The log, read from the front.
    fn mem_reads(&self) -> (r: MemReads)
        requires
            self.wf(),
        ensures
            crate::core_vm::MemSource::wf(&r),
            r.left() == self.entries(),
    ;

    /// The part of the log from `start` to `end`.
    fn mem_reads_between(&self, start: usize, end: usize) -> (r: MemReads)
        requires
            self.wf(),
            start <= end <= self.entries().len(),
        ensures
            crate::core_vm::MemSource::wf(&r),
            r.left() == self.entries().subrange(start as int, end as int),
    ;
}

/// A chunk of a run.
#[derive(Clone)]
pub struct TraceChunk {
    pub start_registers: [u32; 36],
    pub pc_start: u32,
    pub clk_start: u64,
    pub clk_end: u64,
    pub mem_reads: Arc<Vec<MemValue>>,
}

impl MinimalTrace for TraceChunk {
    open spec fn registers_at_start(&self) -> Seq<u32> {
        self.start_registers@
    }

    open spec fn pc_at_start(&self) -> u32 {
        self.pc_start
    }

    open spec fn clk_at_start(&self) -> u64 {
        self.clk_start
    }

    open spec fn clk_at_end(&self) -> u64 {
        self.clk_end
    }

    open spec fn entries(&self) -> Seq<MemValue> {
        self.mem_reads@
    }

    open spec fn wf(&self) -> bool {
        true
    }

    fn start_registers(&self) -> (r: [u32; 36]) {
        self.start_registers
    }

    fn pc_start(&self) -> (r: u32) {
        self.pc_start
    }

    fn clk_start(&self) -> (r: u64) {
        self.clk_start
    }

    fn clk_end(&self) -> (r: u64) {
        self.clk_end
    }

    fn num_mem_reads(&self) -> (r: usize) {
        self.mem_reads.len()
    }

    fn mem_reads(&self) -> (r: MemReads) {
        let r = MemReads::bounded(self.mem_reads.clone(), 0, self.mem_reads.len());
        proof {
            assert(r.left() =~= self.entries());
        }
        r
    }

    fn mem_reads_between(&self, start: usize, end: usize) -> (r: MemReads) {
        MemReads::bounded(self.mem_reads.clone(), start, end)
    }
}

} // verus!
