//! The state of a running program: counters, guest memory, and the shard and clock of the last
//! access of every cell.
use vstd::prelude::*;

use crate::collections::WordMap;
use crate::memory::config::{MIPS_MEMORY_SPACE, MIPS_REGISTER_SPACE};
use crate::memory::guest;
use crate::memory::guest::GuestMemory;
use crate::memory::Memory;
use crate::record::{ExecutionRecord, MemoryAccessRecord};

verus! {

/// What a run is for.
#[derive(Debug, Clone, Copy, PartialEq, Eq, Structural)]
pub enum ExecutorMode {
    /// Run the program, keep nothing.
    Simple,
    /// Run the program and keep what is needed to resume at shard boundaries.
    Checkpoint,
    /// Run the program and record its events.
    Trace,
    /// Run the program and collect the shapes of its shards.
    ShapeCollection,
}

/// Holds data describing the current state of a program's execution.
pub struct ExecutionState {
    /// The program counter.
    pub pc: u32,
    /// The address of the instruction after the next one.
    pub next_pc: u32,
    /// The number of the shard. Shard zero is reserved for memory initialization.
    pub current_shard: u32,
    /// The clock of the shard.
    pub clk: u32,
    /// The number of instructions executed through all shards.
    pub global_clk: u64,
    /// Whether the program has exited.
    pub exited: bool,
    /// Whether the next instruction lies in the delay slot of a branch or jump.
    pub next_is_delayslot: bool,
    /// The memory which instructions operate over.
    pub memory: GuestMemory,
    /// One for every cell that was accessed.
    pub accessed: GuestMemory,
    /// The shard of the last access of every cell.
    pub access_shard: GuestMemory,
    /// The clock of the last access of every cell.
    pub access_clk: GuestMemory,
    /// The clock at the end of each shard.
    pub records_clk: Vec<u32>,
    /// The position in `records_clk`.
    pub records_clk_index: u32,
    /// Untouched addresses that start out with a value of their own.
    pub uninitialized_memory: Memory<u32>,
    /// The input of the program.
    pub input_stream: Vec<Vec<u8>>,
    /// The position in the input.
    pub input_stream_ptr: usize,
    /// The output of the program.
    pub public_values_stream: Vec<u8>,
    /// The position in the output.
    pub public_values_stream_ptr: usize,
    /// How often each syscall was made, by the number of the syscall.
    pub syscall_counts: WordMap,
}

impl ExecutionState {
    /// The memories are well formed.
    pub open spec fn wf(&self) -> bool {
        &&& self.memory.wf()
        &&& self.accessed.wf()
        &&& self.access_shard.wf()
        &&& self.access_clk.wf()
        &&& self.uninitialized_memory.wf()
    }

    /// Whether no cell of a memory is set.
    pub open spec fn blank(m: GuestMemory) -> bool {
        forall|space: u32, cell: u32|
            guest::has_cell(space, cell) ==> #[trigger] m@[(space, cell)] == 0
    }

    /// Create the state at the start of a program: the first shard, with nothing written and
    /// nothing accessed.
    pub fn new(pc_start: u32, next_pc: u32) -> (r: Self)
        ensures
            r.wf(),
            r.pc == pc_start,
            r.next_pc == next_pc,
            r.current_shard == 1,
            r.clk == 0,
            r.global_clk == 0,
            !r.exited,
            !r.next_is_delayslot,
            Self::blank(r.memory),
            Self::blank(r.accessed),
            Self::blank(r.access_shard),
            Self::blank(r.access_clk),
            r.records_clk@.len() == 0,
            r.records_clk_index == 0,
            forall|addr: u32|
                crate::memory::addressable(addr) ==> (#[trigger] r.uninitialized_memory.at(
                    addr,
                )) is None,
            r.input_stream@.len() == 0,
            r.input_stream_ptr == 0,
            r.public_values_stream@.len() == 0,
            r.public_values_stream_ptr == 0,
            r.syscall_counts@.is_empty(),
    {
        ExecutionState {
            pc: pc_start,
            next_pc,
            current_shard: 1,
            clk: 0,
            global_clk: 0,
            exited: false,
            next_is_delayslot: false,
            memory: GuestMemory::default(),
            accessed: GuestMemory::default(),
            access_shard: GuestMemory::default(),
            access_clk: GuestMemory::default(),
            records_clk: Vec::new(),
            records_clk_index: 0,
            uninitialized_memory: Memory::new_preallocated(),
            input_stream: Vec::new(),
            input_stream_ptr: 0,
            public_values_stream: Vec::new(),
            public_values_stream_ptr: 0,
            syscall_counts: WordMap::new(),
        }
    }

    /// The cell of a word of memory.
    pub open spec fn word_cell(ptr: u32) -> u32 {
        ptr / 4
    }

    /// Read a register.
    pub fn read_register(&self, ptr: u32) -> (r: u32)
        requires
            self.wf(),
            guest::has_cell(MIPS_REGISTER_SPACE, ptr),
        ensures
            r == self.memory@[(MIPS_REGISTER_SPACE, ptr)],
    {
        self.vm_read(MIPS_REGISTER_SPACE, ptr)[0]
    }

    /// Write a register.
    pub fn write_register(&mut self, ptr: u32, value: u32)
        requires
            old(self).wf(),
            guest::has_cell(MIPS_REGISTER_SPACE, ptr),
        ensures
            final(self).wf(),
            *final(self) == (ExecutionState { memory: final(self).memory, ..*old(self) }),
            final(self).memory@ == old(self).memory@.insert((MIPS_REGISTER_SPACE, ptr), value),
    {
        self.vm_write(MIPS_REGISTER_SPACE, ptr, &[value]);
    }

    /// Read a word of memory.
    pub fn read_memory(&self, ptr: u32) -> (r: u32)
        requires
            self.wf(),
            guest::has_cell(MIPS_MEMORY_SPACE, Self::word_cell(ptr)),
        ensures
            r == self.memory@[(MIPS_MEMORY_SPACE, Self::word_cell(ptr))],
    {
        self.vm_read(MIPS_MEMORY_SPACE, ptr / 4)[0]
    }

    /// Write a word of memory.
    pub fn write_memory(&mut self, ptr: u32, value: u32)
        requires
            old(self).wf(),
            guest::has_cell(MIPS_MEMORY_SPACE, Self::word_cell(ptr)),
        ensures
            final(self).wf(),
            *final(self) == (ExecutionState { memory: final(self).memory, ..*old(self) }),
            final(self).memory@ == old(self).memory@.insert(
                (MIPS_MEMORY_SPACE, Self::word_cell(ptr)),
                value,
            ),
    {
        self.vm_write(MIPS_MEMORY_SPACE, ptr / 4, &[value]);
    }

    /// The shard and the clock of the last access of a cell.
    pub open spec fn last_access(&self, space: u32, cell: u32) -> (u32, u32) {
        (self.access_shard@[(space, cell)], self.access_clk@[(space, cell)])
    }

    /// Read the shard and the clock of the last access of a register.
    pub fn read_register_access_meta(&self, ptr: u32) -> (r: (u32, u32))
        requires
            self.wf(),
            guest::has_cell(MIPS_REGISTER_SPACE, ptr),
        ensures
            r == self.last_access(MIPS_REGISTER_SPACE, ptr),
    {
        (
            self.access_shard.read(MIPS_REGISTER_SPACE, ptr),
            self.access_clk.read(MIPS_REGISTER_SPACE, ptr),
        )
    }

    /// Write the shard and the clock of the last access of a register.
    pub fn write_register_access_meta(&mut self, ptr: u32, shard: u32, clk: u32)
        requires
            old(self).wf(),
            guest::has_cell(MIPS_REGISTER_SPACE, ptr),
        ensures
            final(self).wf(),
            *final(self) == (ExecutionState {
                access_shard: final(self).access_shard,
                access_clk: final(self).access_clk,
                ..*old(self)
            }),
            final(self).access_shard@ == old(self).access_shard@.insert(
                (MIPS_REGISTER_SPACE, ptr),
                shard,
            ),
            final(self).access_clk@ == old(self).access_clk@.insert(
                (MIPS_REGISTER_SPACE, ptr),
                clk,
            ),
    {
        self.access_shard.write(MIPS_REGISTER_SPACE, ptr, shard);
        self.access_clk.write(MIPS_REGISTER_SPACE, ptr, clk);
    }

    /// Read the shard and the clock of the last access of a word of memory.
    pub fn read_memory_access_meta(&self, ptr: u32) -> (r: (u32, u32))
        requires
            self.wf(),
            guest::has_cell(MIPS_MEMORY_SPACE, Self::word_cell(ptr)),
        ensures
            r == self.last_access(MIPS_MEMORY_SPACE, Self::word_cell(ptr)),
    {
        (
            self.access_shard.read(MIPS_MEMORY_SPACE, ptr / 4),
            self.access_clk.read(MIPS_MEMORY_SPACE, ptr / 4),
        )
    }

    /// Write the shard and the clock of the last access of a word of memory.
    pub fn write_memory_access_meta(&mut self, ptr: u32, shard: u32, clk: u32)
        requires
            old(self).wf(),
            guest::has_cell(MIPS_MEMORY_SPACE, Self::word_cell(ptr)),
        ensures
            final(self).wf(),
            *final(self) == (ExecutionState {
                access_shard: final(self).access_shard,
                access_clk: final(self).access_clk,
                ..*old(self)
            }),
            final(self).access_shard@ == old(self).access_shard@.insert(
                (MIPS_MEMORY_SPACE, Self::word_cell(ptr)),
                shard,
            ),
            final(self).access_clk@ == old(self).access_clk@.insert(
                (MIPS_MEMORY_SPACE, Self::word_cell(ptr)),
                clk,
            ),
    {
        self.access_shard.write(MIPS_MEMORY_SPACE, ptr / 4, shard);
        self.access_clk.write(MIPS_MEMORY_SPACE, ptr / 4, clk);
    }

    /// Mark a register as accessed.
    pub fn access_register(&mut self, ptr: u32)
        requires
            old(self).wf(),
            guest::has_cell(MIPS_REGISTER_SPACE, ptr),
        ensures
            final(self).wf(),
            *final(self) == (ExecutionState { accessed: final(self).accessed, ..*old(self) }),
            final(self).accessed@ == old(self).accessed@.insert((MIPS_REGISTER_SPACE, ptr), 1),
    {
        self.accessed.write(MIPS_REGISTER_SPACE, ptr, 1);
    }

    /// Mark a word of memory as accessed.
    pub fn access_memory(&mut self, ptr: u32)
        requires
            old(self).wf(),
            guest::has_cell(MIPS_MEMORY_SPACE, Self::word_cell(ptr)),
        ensures
            final(self).wf(),
            *final(self) == (ExecutionState { accessed: final(self).accessed, ..*old(self) }),
            final(self).accessed@ == old(self).accessed@.insert(
                (MIPS_MEMORY_SPACE, Self::word_cell(ptr)),
                1,
            ),
    {
        self.accessed.write(MIPS_MEMORY_SPACE, ptr / 4, 1);
    }

    /// Whether a register has not been accessed.
    pub fn register_not_accessed(&self, ptr: u32) -> (r: bool)
        requires
            self.wf(),
            guest::has_cell(MIPS_REGISTER_SPACE, ptr),
        ensures
            r == (self.accessed@[(MIPS_REGISTER_SPACE, ptr)] == 0),
    {
        self.accessed.read(MIPS_REGISTER_SPACE, ptr) == 0
    }

    /// Whether a word of memory has not been accessed.
    pub fn memory_not_accessed(&self, ptr: u32) -> (r: bool)
        requires
            self.wf(),
            guest::has_cell(MIPS_MEMORY_SPACE, Self::word_cell(ptr)),
        ensures
            r == (self.accessed@[(MIPS_MEMORY_SPACE, Self::word_cell(ptr))] == 0),
    {
        self.accessed.read(MIPS_MEMORY_SPACE, ptr / 4) == 0
    }

    /// Read a block of one cell.
    pub fn vm_read(&self, addr_space: u32, ptr: u32) -> (r: [u32; 1])
        requires
            self.wf(),
            guest::has_cell(addr_space, ptr),
        ensures
            r@ == seq![self.memory@[(addr_space, ptr)]],
    {
        let cell: u32 = self.memory.read(addr_space, ptr);
        let block = [cell];
        assert(block@ =~= seq![cell]);
        block
    }

    /// Write a block of one cell.
    pub fn vm_write(&mut self, addr_space: u32, ptr: u32, data: &[u32; 1])
        requires
            old(self).wf(),
            guest::has_cell(addr_space, ptr),
        ensures
            final(self).wf(),
            *final(self) == (ExecutionState { memory: final(self).memory, ..*old(self) }),
            final(self).memory@ == old(self).memory@.insert((addr_space, ptr), data@[0]),
    {
        self.memory.write(addr_space, ptr, data[0]);
    }
}

/// Holds data to track changes made to the runtime since a fork point.
pub struct ForkState {
    /// The `global_clk` at the fork point.
    pub global_clk: u64,
    /// The `clk` at the fork point.
    pub clk: u32,
    /// The `pc` at the fork point.
    pub pc: u32,
    /// The memory which instructions operate over.
    pub memory: GuestMemory,
    /// The shard of the last access of every cell.
    pub access_shard: GuestMemory,
    /// The clock of the last access of every cell.
    pub access_clk: GuestMemory,
    /// The memory access record at the fork point.
    pub op_record: MemoryAccessRecord,
    /// The execution record at the fork point.
    pub record: ExecutionRecord,
    /// What the run was for at the fork point.
    pub executor_mode: ExecutorMode,
}

/// A register reads back what was written to it last, and writing it disturbs neither memory nor
/// any other register; the same holds of words of memory.
pub proof fn cells_are_independent(
    before: Map<(u32, u32), u32>,
    space: u32,
    cell: u32,
    value: u32,
    other_space: u32,
    other_cell: u32,
)
    requires
        before.contains_key((other_space, other_cell)),
    ensures
        before.insert((space, cell), value)[(other_space, other_cell)] == if (
        space,
        cell,
    ) == (other_space, other_cell) {
            value
        } else {
            before[(other_space, other_cell)]
        },
{
}

} // verus!
