//! The record of a shard: the events that its instructions, system calls and memory accesses leave.
use std::sync::Arc;

use vstd::prelude::*;

use crate::collections::{NameMap, WordMap};
use crate::events::precompiles::EventList;
use crate::events::{
    AluEvent, BranchEvent, BumpClkHighEvent, CompAluEvent, JumpEvent, MemInstrEvent,
    MemoryInitializeFinalizeEvent, MemoryLocalEvent, MemoryRecordEnum, MiscEvent, MovCondEvent,
    PrecompileEvent, PrecompileEvents, SyscallEvent,
};
use crate::program::Program;
use crate::syscalls::SyscallCode;

verus! {

/// A retired instruction as the processor chip sees it.
#[derive(Debug, Clone, Copy, PartialEq, Eq, Structural)]
pub struct CpuEvent {
    /// The clock cycle.
    pub clk: u64,
    /// The program counter.
    pub pc: u32,
    /// The next program counter.
    pub next_pc: u32,
    /// The program counter after the next one.
    pub next_next_pc: u32,
    /// The exit code.
    pub exit_code: u32,
}

/// A message exchanged between shards.
#[derive(Debug, Clone, Copy, PartialEq, Eq)]
pub struct GlobalLookupEvent {
    /// The message.
    pub message: [u32; 7],
    /// Whether the message is received.
    pub is_receive: bool,
    /// The kind of lookup.
    pub kind: u8,
}

/// A lookup of a byte operation.
#[derive(Debug, Clone, Copy, PartialEq, Eq, Structural)]
pub struct ByteLookupEvent {
    /// The operation.
    pub opcode: u8,
    /// The first output operand.
    pub a1: u16,
    /// The second output operand.
    pub a2: u8,
    /// The first input operand.
    pub b: u8,
    /// The second input operand.
    pub c: u8,
}

impl ByteLookupEvent {
    /// The number that identifies the lookup.
    pub open spec fn number(self) -> u64 {
        (self.c + 0x100 * self.b + 0x1_0000 * self.a2 + 0x100_0000 * self.a1 + 0x100_0000_0000
            * self.opcode) as u64
    }

    /// The number that identifies the lookup.
    pub fn key(&self) -> (r: u64)
        ensures
            r == self.number(),
    {
        (self.c as u64) + 0x100 * (self.b as u64) + 0x1_0000 * (self.a2 as u64) + 0x100_0000 * (
        self.a1 as u64) + 0x100_0000_0000 * (self.opcode as u64)
    }
}

/// A byte and what comes above it are determined by their sum.
proof fn lemma_low_byte(x: int, xs: int, y: int, ys: int)
    requires
        0 <= x < 0x100,
        0 <= y < 0x100,
        x + 0x100 * xs == y + 0x100 * ys,
    ensures
        x == y,
        xs == ys,
{
}

/// Different lookups have different numbers.
pub proof fn lookup_numbers_are_distinct(a: ByteLookupEvent, b: ByteLookupEvent)
    requires
        a.number() == b.number(),
    ensures
        a == b,
{
    let a1 = a.a1 + 0x1_0000 * a.opcode;
    let b1 = b.a1 + 0x1_0000 * b.opcode;
    let a2 = a.a2 + 0x100 * a1;
    let b2 = b.a2 + 0x100 * b1;
    let a3 = a.b + 0x100 * a2;
    let b3 = b.b + 0x100 * b2;
    lemma_low_byte(a.c as int, a3, b.c as int, b3);
    lemma_low_byte(a.b as int, a2, b.b as int, b2);
    lemma_low_byte(a.a2 as int, a1, b.a2 as int, b1);
}

/// The public values of a shard.
#[derive(Debug, Clone, Copy, PartialEq, Eq)]
pub struct PublicValues {
    /// Whether the shard retired an instruction: zero or one.
    pub is_execution_shard: u32,
    /// The address of the first instruction.
    pub start_pc: u32,
    /// The address behind the last instruction.
    pub next_pc: u32,
    /// The high part of the clock at the start.
    pub initial_clk_high: u32,
    /// The low part of the clock at the start.
    pub initial_clk_low: u32,
    /// The high part of the clock at the end.
    pub last_clk_high: u32,
    /// The low part of the clock at the end.
    pub last_clk_low: u32,
    /// The greatest address initialized by the shards before.
    pub previous_init_addr: u32,
    /// The greatest address initialized by the shards up to this one.
    pub last_init_addr: u32,
    /// The greatest address finalized by the shards before.
    pub previous_finalize_addr: u32,
    /// The greatest address finalized by the shards up to this one.
    pub last_finalize_addr: u32,
    /// The number of initialized words.
    pub global_init_count: u32,
    /// The number of finalized words.
    pub global_finalize_count: u32,
    /// The number of messages exchanged between shards.
    pub global_count: u32,
    /// The first coordinate of the digest of those messages.
    pub global_cumulative_sum_x: [u32; 7],
    /// The second coordinate of the digest of those messages.
    pub global_cumulative_sum_y: [u32; 7],
}

impl PublicValues {
    /// Every public value is zero.
    pub open spec fn zero(self) -> bool {
        &&& self.is_execution_shard == 0
        &&& self.start_pc == 0
        &&& self.next_pc == 0
        &&& self.initial_clk_high == 0
        &&& self.initial_clk_low == 0
        &&& self.last_clk_high == 0
        &&& self.last_clk_low == 0
        &&& self.previous_init_addr == 0
        &&& self.last_init_addr == 0
        &&& self.previous_finalize_addr == 0
        &&& self.last_finalize_addr == 0
        &&& self.global_init_count == 0
        &&& self.global_finalize_count == 0
        &&& self.global_count == 0
        &&& forall|i: int| 0 <= i < 7 ==> #[trigger] self.global_cumulative_sum_x@[i] == 0
        &&& forall|i: int| 0 <= i < 7 ==> #[trigger] self.global_cumulative_sum_y@[i] == 0
    }
}

impl Default for PublicValues {
    /// Every public value is zero.
    fn default() -> (r: Self)
        ensures
            r.zero(),
    {
        PublicValues {
            is_execution_shard: 0,
            start_pc: 0,
            next_pc: 0,
            initial_clk_high: 0,
            initial_clk_low: 0,
            last_clk_high: 0,
            last_clk_low: 0,
            previous_init_addr: 0,
            last_init_addr: 0,
            previous_finalize_addr: 0,
            last_finalize_addr: 0,
            global_init_count: 0,
            global_finalize_count: 0,
            global_count: 0,
            global_cumulative_sum_x: [0u32; 7],
            global_cumulative_sum_y: [0u32; 7],
        }
    }
}

/// The accesses of a register-form instruction.
#[derive(Debug, Copy, Clone, PartialEq, Eq, Structural)]
pub struct MemoryAccessRecord {
    /// The access of operand `a`.
    pub a: Option<MemoryRecordEnum>,
    /// The access of operand `b`.
    pub b: Option<MemoryRecordEnum>,
    /// The access of operand `c`.
    pub c: Option<MemoryRecordEnum>,
    /// The access of `HI`.
    pub hi: Option<MemoryRecordEnum>,
    /// The access of a memory word.
    pub memory: Option<MemoryRecordEnum>,
}

impl Default for MemoryAccessRecord {
    /// No access.
    fn default() -> (r: Self)
        ensures
            r == (MemoryAccessRecord { a: None, b: None, c: None, hi: None, memory: None }),
    {
        MemoryAccessRecord { a: None, b: None, c: None, hi: None, memory: None }
    }
}

/// When deferred events fill a shard of their own.
#[derive(Debug, Clone, Copy, PartialEq, Eq, Structural)]
pub struct SplitOpts {
    /// The number of events of an ordinary precompiled operation.
    pub deferred: usize,
    /// The number of blocks of sponge input.
    pub keccak: usize,
    /// The number of schedule extensions.
    pub sha_extend: usize,
    /// The number of compressions.
    pub sha_compress: usize,
    /// The number of memory events of each kind.
    pub memory: usize,
}

/// A record of the execution of a shard.
pub struct ExecutionRecord {
    /// The program.
    pub program: Arc<Program>,
    /// The address of the first retired instruction, if any.
    pub first_instruction_pc: Option<u32>,
    /// The clock of the first retired instruction, if any.
    pub first_instruction_clk: Option<u64>,
    /// The address behind the last retired instruction.
    pub last_next_pc: u32,
    /// The exit code of the last retired instruction.
    pub last_exit_code: u32,
    /// The clock of the last retired instruction.
    pub last_instruction_clk: u64,
    /// The clock expected behind the last retired instruction.
    pub last_timestamp: u64,
    /// The retired instructions as the processor chip sees them.
    pub cpu_events: Vec<CpuEvent>,
    /// Register-form ADD and ADDU events.
    pub add_events: Vec<AluEvent>,
    /// Immediate-form ADDI and ADDIU events.
    pub addi_events: Vec<AluEvent>,
    /// SYNC and Pref events.
    pub add_noop_events: Vec<AluEvent>,
    /// SUB and SUBU events.
    pub sub_events: Vec<AluEvent>,
    /// Arithmetic events whose destination is the zero register.
    pub alu_x0_events: Vec<AluEvent>,
    /// MUL, MULT and MULTU events.
    pub mul_events: Vec<CompAluEvent>,
    /// XOR, OR, AND and NOR events.
    pub bitwise_events: Vec<AluEvent>,
    /// SLL and SLLV events.
    pub shift_left_events: Vec<AluEvent>,
    /// LUI events.
    pub lui_events: Vec<AluEvent>,
    /// SRL, SRLV, SRA, and SRAV events.
    pub shift_right_events: Vec<AluEvent>,
    /// DIV and DIVU events.
    pub divrem_events: Vec<CompAluEvent>,
    /// Register-form SLT and SLTU events.
    pub lt_events: Vec<AluEvent>,
    /// Immediate-form SLTI and SLTIU events.
    pub slti_events: Vec<AluEvent>,
    /// CLO and CLZ events.
    pub cloclz_events: Vec<AluEvent>,
    /// LW events.
    pub load_word_events: Vec<MemInstrEvent>,
    /// LW events whose destination is the zero register.
    pub load_x0_events: Vec<MemInstrEvent>,
    /// SW events.
    pub store_word_events: Vec<MemInstrEvent>,
    /// LB and LBU events.
    pub load_byte_events: Vec<MemInstrEvent>,
    /// LH and LHU events.
    pub load_half_events: Vec<MemInstrEvent>,
    /// LWL and LWR events.
    pub load_word_unaligned_events: Vec<MemInstrEvent>,
    /// SB events.
    pub store_byte_events: Vec<MemInstrEvent>,
    /// SH events.
    pub store_half_events: Vec<MemInstrEvent>,
    /// SWL and SWR events.
    pub store_word_unaligned_events: Vec<MemInstrEvent>,
    /// SC events.
    pub store_conditional_events: Vec<MemInstrEvent>,
    /// Branch events.
    pub branch_events: Vec<BranchEvent>,
    /// JR and JALR events.
    pub jump_events: Vec<JumpEvent>,
    /// J and JAL events.
    pub jumpi_events: Vec<JumpEvent>,
    /// BAL events.
    pub jumpdirect_events: Vec<JumpEvent>,
    /// Conditional move events.
    pub movcond_events: Vec<MovCondEvent>,
    /// SEXT events.
    pub sext_events: Vec<MiscEvent>,
    /// INS events.
    pub ins_events: Vec<MiscEvent>,
    /// EXT events.
    pub ext_events: Vec<MiscEvent>,
    /// MADD, MADDU, MSUB and MSUBU events.
    pub maddsub_events: Vec<MiscEvent>,
    /// TEQ events.
    pub teq_events: Vec<MiscEvent>,
    /// System call events.
    pub syscall_events: Vec<SyscallEvent>,
    /// The local memory accesses of the processor.
    pub cpu_local_memory_access: Vec<MemoryLocalEvent>,
    /// Global lookup events.
    pub global_lookup_events: Vec<GlobalLookupEvent>,
    /// Jumps of the clock to the next window.
    pub bump_clk_high_events: Vec<BumpClkHighEvent>,
    /// Register timestamps carried into the next window of the clock.
    pub bump_memory_events: Vec<(MemoryRecordEnum, u32)>,
    /// The byte lookups and how often each is needed.
    pub byte_lookups: WordMap,
    /// The events of precompiled operations.
    pub precompile_events: PrecompileEvents,
    /// The words that the run initializes.
    pub global_memory_initialize_events: Vec<MemoryInitializeFinalizeEvent>,
    /// The words that the run finalizes.
    pub global_memory_finalize_events: Vec<MemoryInitializeFinalizeEvent>,
    /// The public values.
    pub public_values: PublicValues,
}

impl ExecutionRecord {
    /// The record holds no event of its own and no byte lookup; what it may hold is deferred.
    pub open spec fn only_deferred(&self) -> bool {
        &&& self.first_instruction_pc == None::<u32>
        &&& self.first_instruction_clk == None::<u64>
        &&& self.last_next_pc == 0
        &&& self.last_exit_code == 0
        &&& self.last_instruction_clk == 0
        &&& self.last_timestamp == 0
        &&& self.cpu_events@.len() == 0
        &&& self.add_events@.len() == 0
        &&& self.addi_events@.len() == 0
        &&& self.add_noop_events@.len() == 0
        &&& self.sub_events@.len() == 0
        &&& self.alu_x0_events@.len() == 0
        &&& self.mul_events@.len() == 0
        &&& self.bitwise_events@.len() == 0
        &&& self.shift_left_events@.len() == 0
        &&& self.lui_events@.len() == 0
        &&& self.shift_right_events@.len() == 0
        &&& self.divrem_events@.len() == 0
        &&& self.lt_events@.len() == 0
        &&& self.slti_events@.len() == 0
        &&& self.cloclz_events@.len() == 0
        &&& self.load_word_events@.len() == 0
        &&& self.load_x0_events@.len() == 0
        &&& self.store_word_events@.len() == 0
        &&& self.load_byte_events@.len() == 0
        &&& self.load_half_events@.len() == 0
        &&& self.load_word_unaligned_events@.len() == 0
        &&& self.store_byte_events@.len() == 0
        &&& self.store_half_events@.len() == 0
        &&& self.store_word_unaligned_events@.len() == 0
        &&& self.store_conditional_events@.len() == 0
        &&& self.branch_events@.len() == 0
        &&& self.jump_events@.len() == 0
        &&& self.jumpi_events@.len() == 0
        &&& self.jumpdirect_events@.len() == 0
        &&& self.movcond_events@.len() == 0
        &&& self.sext_events@.len() == 0
        &&& self.ins_events@.len() == 0
        &&& self.ext_events@.len() == 0
        &&& self.maddsub_events@.len() == 0
        &&& self.teq_events@.len() == 0
        &&& self.syscall_events@.len() == 0
        &&& self.cpu_local_memory_access@.len() == 0
        &&& self.global_lookup_events@.len() == 0
        &&& self.bump_clk_high_events@.len() == 0
        &&& self.bump_memory_events@.len() == 0
        &&& self.byte_lookups@.is_empty()
    }

    /// The record holds nothing but its program.
    pub open spec fn blank(&self) -> bool {
        &&& self.only_deferred()
        &&& self.precompile_events.groups@.len() == 0
        &&& self.global_memory_initialize_events@.len() == 0
        &&& self.global_memory_finalize_events@.len() == 0
        &&& self.public_values.zero()
    }

    /// Create a record that holds nothing but its program.
    pub fn new(program: Arc<Program>) -> (r: Self)
        ensures
            r.program == program,
            r.blank(),
    {
        ExecutionRecord {
            program,
            first_instruction_pc: None,
            first_instruction_clk: None,
            last_next_pc: 0,
            last_exit_code: 0,
            last_instruction_clk: 0,
            last_timestamp: 0,
            cpu_events: Vec::new(),
            add_events: Vec::new(),
            addi_events: Vec::new(),
            add_noop_events: Vec::new(),
            sub_events: Vec::new(),
            alu_x0_events: Vec::new(),
            mul_events: Vec::new(),
            bitwise_events: Vec::new(),
            shift_left_events: Vec::new(),
            lui_events: Vec::new(),
            shift_right_events: Vec::new(),
            divrem_events: Vec::new(),
            lt_events: Vec::new(),
            slti_events: Vec::new(),
            cloclz_events: Vec::new(),
            load_word_events: Vec::new(),
            load_x0_events: Vec::new(),
            store_word_events: Vec::new(),
            load_byte_events: Vec::new(),
            load_half_events: Vec::new(),
            load_word_unaligned_events: Vec::new(),
            store_byte_events: Vec::new(),
            store_half_events: Vec::new(),
            store_word_unaligned_events: Vec::new(),
            store_conditional_events: Vec::new(),
            branch_events: Vec::new(),
            jump_events: Vec::new(),
            jumpi_events: Vec::new(),
            jumpdirect_events: Vec::new(),
            movcond_events: Vec::new(),
            sext_events: Vec::new(),
            ins_events: Vec::new(),
            ext_events: Vec::new(),
            maddsub_events: Vec::new(),
            teq_events: Vec::new(),
            syscall_events: Vec::new(),
            cpu_local_memory_access: Vec::new(),
            global_lookup_events: Vec::new(),
            bump_clk_high_events: Vec::new(),
            bump_memory_events: Vec::new(),
            byte_lookups: WordMap::new(),
            precompile_events: PrecompileEvents::default(),
            global_memory_initialize_events: Vec::new(),
            global_memory_finalize_events: Vec::new(),
            public_values: PublicValues::default(),
        }
    }

    /// Everything but what can be deferred is as before.
    pub open spec fn same_but_deferred(&self, before: &Self) -> bool {
        &&& self.program == before.program
        &&& self.first_instruction_pc == before.first_instruction_pc
        &&& self.first_instruction_clk == before.first_instruction_clk
        &&& self.last_next_pc == before.last_next_pc
        &&& self.last_exit_code == before.last_exit_code
        &&& self.last_instruction_clk == before.last_instruction_clk
        &&& self.last_timestamp == before.last_timestamp
        &&& self.cpu_events == before.cpu_events
        &&& self.add_events == before.add_events
        &&& self.addi_events == before.addi_events
        &&& self.add_noop_events == before.add_noop_events
        &&& self.sub_events == before.sub_events
        &&& self.alu_x0_events == before.alu_x0_events
        &&& self.mul_events == before.mul_events
        &&& self.bitwise_events == before.bitwise_events
        &&& self.shift_left_events == before.shift_left_events
        &&& self.lui_events == before.lui_events
        &&& self.shift_right_events == before.shift_right_events
        &&& self.divrem_events == before.divrem_events
        &&& self.lt_events == before.lt_events
        &&& self.slti_events == before.slti_events
        &&& self.cloclz_events == before.cloclz_events
        &&& self.load_word_events == before.load_word_events
        &&& self.load_x0_events == before.load_x0_events
        &&& self.store_word_events == before.store_word_events
        &&& self.load_byte_events == before.load_byte_events
        &&& self.load_half_events == before.load_half_events
        &&& self.load_word_unaligned_events == before.load_word_unaligned_events
        &&& self.store_byte_events == before.store_byte_events
        &&& self.store_half_events == before.store_half_events
        &&& self.store_word_unaligned_events == before.store_word_unaligned_events
        &&& self.store_conditional_events == before.store_conditional_events
        &&& self.branch_events == before.branch_events
        &&& self.jump_events == before.jump_events
        &&& self.jumpi_events == before.jumpi_events
        &&& self.jumpdirect_events == before.jumpdirect_events
        &&& self.movcond_events == before.movcond_events
        &&& self.sext_events == before.sext_events
        &&& self.ins_events == before.ins_events
        &&& self.ext_events == before.ext_events
        &&& self.maddsub_events == before.maddsub_events
        &&& self.teq_events == before.teq_events
        &&& self.syscall_events == before.syscall_events
        &&& self.cpu_local_memory_access == before.cpu_local_memory_access
        &&& self.global_lookup_events == before.global_lookup_events
        &&& self.bump_clk_high_events == before.bump_clk_high_events
        &&& self.bump_memory_events == before.bump_memory_events
        &&& self.byte_lookups == before.byte_lookups
    }

    /// Adds a multiplication event.
    pub fn add_mul_event(&mut self, mul_event: CompAluEvent)
        ensures
            final(self).mul_events@ == old(self).mul_events@.push(mul_event),
            *final(self) == (ExecutionRecord {
                mul_events: final(self).mul_events,
                ..*old(self)
            }),
    {
        self.mul_events.push(mul_event);
    }

    /// Adds a comparison event.
    pub fn add_lt_event(&mut self, lt_event: AluEvent)
        ensures
            final(self).lt_events@ == old(self).lt_events@.push(lt_event),
            *final(self) == (ExecutionRecord {
                lt_events: final(self).lt_events,
                ..*old(self)
            }),
    {
        self.lt_events.push(lt_event);
    }

    /// Takes out the events that are deferred to a separate shard: those of precompiled
    /// operations and of global memory.
    pub fn defer(&mut self) -> (r: ExecutionRecord)
        ensures
            r.program == old(self).program,
            r.only_deferred(),
            r.public_values.zero(),
            r.precompile_events == old(self).precompile_events,
            r.global_memory_initialize_events == old(self).global_memory_initialize_events,
            r.global_memory_finalize_events == old(self).global_memory_finalize_events,
            final(self).same_but_deferred(old(self)),
            final(self).public_values == old(self).public_values,
            final(self).precompile_events.groups@.len() == 0,
            final(self).global_memory_initialize_events@.len() == 0,
            final(self).global_memory_finalize_events@.len() == 0,
    {
        let mut record: ExecutionRecord = ExecutionRecord::new(self.program.clone());
        std::mem::swap(&mut record.precompile_events, &mut self.precompile_events);
        std::mem::swap(
            &mut record.global_memory_initialize_events,
            &mut self.global_memory_initialize_events,
        );
        std::mem::swap(
            &mut record.global_memory_finalize_events,
            &mut self.global_memory_finalize_events,
        );
        record
    }

    /// Whether the record retired any instruction.
    pub fn contains_cpu(&self) -> (r: bool)
        ensures
            r == self.first_instruction_pc is Some,
    {
        self.first_instruction_pc.is_some()
    }

    /// Adds the event of a precompiled operation.
    pub fn add_precompile_event(
        &mut self,
        syscall_code: SyscallCode,
        syscall_event: SyscallEvent,
        event: PrecompileEvent,
    )
        requires
            old(self).precompile_events.wf(),
        ensures
            final(self).precompile_events.wf(),
            final(self).precompile_events.events(syscall_code) == old(
                self,
            ).precompile_events.events(syscall_code).push((syscall_event, event)),
            forall|c: SyscallCode|
                c != syscall_code ==> #[trigger] final(self).precompile_events.events(c) == old(
                    self,
                ).precompile_events.events(c),
            *final(self) == (ExecutionRecord {
                precompile_events: final(self).precompile_events,
                ..*old(self)
            }),
    {
        self.precompile_events.add_event(syscall_code, syscall_event, event);
    }

    /// The events of a precompiled operation.
    pub fn get_precompile_events(&self, syscall_code: SyscallCode) -> (r: Option<&EventList>)
        ensures
            match r {
                Some(events) => self.precompile_events.has(syscall_code) && events@
                    == self.precompile_events.events(syscall_code),
                None => !self.precompile_events.has(syscall_code),
            },
    {
        self.precompile_events.get_events(syscall_code)
    }

    /// The local memory accesses: those of precompiled operations, then those of the processor.
    pub fn get_local_mem_events(&self) -> (r: Vec<MemoryLocalEvent>)
        ensures
            r@ == self.precompile_events.local_of_groups(
                self.precompile_events.groups@.len() as int,
            ) + self.cpu_local_memory_access@,
    {
        let mut all: Vec<MemoryLocalEvent> = self.precompile_events.get_local_mem_events();
        let ghost start = all@;
        let mut i: usize = 0;
        while i < self.cpu_local_memory_access.len()
            invariant
                i <= self.cpu_local_memory_access@.len(),
                all@ =~= start + self.cpu_local_memory_access@.take(i as int),
            decreases self.cpu_local_memory_access@.len() - i,
        {
            all.push(self.cpu_local_memory_access[i]);
            i = i + 1;
        }
        proof {
            assert(self.cpu_local_memory_access@.take(i as int) =~= self.cpu_local_memory_access@);
        }
        all
    }
}

/// A count noted under a name, unless it is zero.
pub open spec fn noted(stats: Map<Seq<char>, usize>, name: Seq<char>, count: usize) -> Map<
    Seq<char>,
    usize,
> {
    if count == 0 {
        stats
    } else {
        stats.insert(name, count)
    }
}

/// Notes a count under a name, unless it is zero.
fn note(stats: &mut NameMap, name: &str, count: usize)
    ensures
        final(stats)@ == noted(old(stats)@, name@, count),
{
    if count != 0 {
        stats.insert(String::from_str(name), count);
    }
}

impl ExecutionRecord {
    /// The counts of the instruction events.
    pub open spec fn instruction_stats(&self) -> Map<Seq<char>, usize> {
        let m0 = noted(Map::<Seq<char>, usize>::empty(), "cpu_events"@, self.cpu_events@.len() as usize);
        let m1 = noted(m0, "add_events"@, self.add_events@.len() as usize);
        let m2 = noted(m1, "addi_events"@, self.addi_events@.len() as usize);
        let m3 = noted(m2, "add_noop_events"@, self.add_noop_events@.len() as usize);
        let m4 = noted(m3, "sub_events"@, self.sub_events@.len() as usize);
        let m5 = noted(m4, "alu_x0_events"@, self.alu_x0_events@.len() as usize);
        let m6 = noted(m5, "mul_events"@, self.mul_events@.len() as usize);
        let m7 = noted(m6, "bitwise_events"@, self.bitwise_events@.len() as usize);
        let m8 = noted(m7, "shift_left_events"@, self.shift_left_events@.len() as usize);
        let m9 = noted(m8, "lui_events"@, self.lui_events@.len() as usize);
        let m10 = noted(m9, "shift_right_events"@, self.shift_right_events@.len() as usize);
        let m11 = noted(m10, "divrem_events"@, self.divrem_events@.len() as usize);
        let m12 = noted(m11, "lt_events"@, self.lt_events@.len() as usize);
        let m13 = noted(m12, "slti_events"@, self.slti_events@.len() as usize);
        let m14 = noted(m13, "cloclz_events"@, self.cloclz_events@.len() as usize);
        let m15 = noted(m14, "load_word_events"@, self.load_word_events@.len() as usize);
        let m16 = noted(m15, "load_x0_events"@, self.load_x0_events@.len() as usize);
        let m17 = noted(m16, "store_word_events"@, self.store_word_events@.len() as usize);
        let m18 = noted(m17, "load_byte_events"@, self.load_byte_events@.len() as usize);
        let m19 = noted(m18, "load_half_events"@, self.load_half_events@.len() as usize);
        let m20 = noted(m19, "load_word_unaligned_events"@, self.load_word_unaligned_events@.len() as usize);
        let m21 = noted(m20, "store_byte_events"@, self.store_byte_events@.len() as usize);
        let m22 = noted(m21, "store_half_events"@, self.store_half_events@.len() as usize);
        let m23 = noted(m22, "store_word_unaligned_events"@, self.store_word_unaligned_events@.len() as usize);
        let m24 = noted(m23, "store_conditional_events"@, self.store_conditional_events@.len() as usize);
        let m25 = noted(m24, "branch_events"@, self.branch_events@.len() as usize);
        let m26 = noted(m25, "jump_events"@, self.jump_events@.len() as usize);
        let m27 = noted(m26, "jumpi_events"@, self.jumpi_events@.len() as usize);
        let m28 = noted(m27, "jumpdirect_events"@, self.jumpdirect_events@.len() as usize);
        let m29 = noted(m28, "sext_events"@, self.sext_events@.len() as usize);
        let m30 = noted(m29, "ins_events"@, self.ins_events@.len() as usize);
        let m31 = noted(m30, "ext_events"@, self.ext_events@.len() as usize);
        let m32 = noted(m31, "maddsub_events"@, self.maddsub_events@.len() as usize);
        let m33 = noted(m32, "teq_events"@, self.teq_events@.len() as usize);
        m33
    }

    /// The counts of the instruction events and of the first `n` groups of precompiled operations.
    pub open spec fn precompile_stats(&self, n: int) -> Map<Seq<char>, usize>
        decreases n,
    {
        if n <= 0 {
            self.instruction_stats()
        } else {
            let group = self.precompile_events.groups@[n - 1];
            noted(
                self.precompile_stats(n - 1),
                "syscall "@ + group.0.spelling(),
                group.1@.len() as usize,
            )
        }
    }

    /// The number of events of each kind, leaving out those without any.
    pub open spec fn counts(&self) -> Map<Seq<char>, usize> {
        let m0 = self.precompile_stats(self.precompile_events.groups@.len() as int);
        let m1 = noted(m0, "global_memory_initialize_events"@, self.global_memory_initialize_events@.len() as usize);
        let m2 = noted(m1, "global_memory_finalize_events"@, self.global_memory_finalize_events@.len() as usize);
        let m3 = noted(m2, "local_memory_access_events"@, self.cpu_local_memory_access@.len() as usize);
        let m4 = noted(m3, "bump_memory_events"@, self.bump_memory_events@.len() as usize);
        noted(m4, "byte_lookups"@, self.byte_lookups@.dom().len() as usize)
    }

    /// Counts the instruction events.
    fn instruction_counts(&self) -> (r: NameMap)
        ensures
            r@ == self.instruction_stats(),
    {
        let mut stats: NameMap = NameMap::new();
        proof {
            assert(stats@ =~= Map::<Seq<char>, usize>::empty());
        }
        note(&mut stats, "cpu_events", self.cpu_events.len());
        note(&mut stats, "add_events", self.add_events.len());
        note(&mut stats, "addi_events", self.addi_events.len());
        note(&mut stats, "add_noop_events", self.add_noop_events.len());
        note(&mut stats, "sub_events", self.sub_events.len());
        note(&mut stats, "alu_x0_events", self.alu_x0_events.len());
        note(&mut stats, "mul_events", self.mul_events.len());
        note(&mut stats, "bitwise_events", self.bitwise_events.len());
        note(&mut stats, "shift_left_events", self.shift_left_events.len());
        note(&mut stats, "lui_events", self.lui_events.len());
        note(&mut stats, "shift_right_events", self.shift_right_events.len());
        note(&mut stats, "divrem_events", self.divrem_events.len());
        note(&mut stats, "lt_events", self.lt_events.len());
        note(&mut stats, "slti_events", self.slti_events.len());
        note(&mut stats, "cloclz_events", self.cloclz_events.len());
        note(&mut stats, "load_word_events", self.load_word_events.len());
        note(&mut stats, "load_x0_events", self.load_x0_events.len());
        note(&mut stats, "store_word_events", self.store_word_events.len());
        note(&mut stats, "load_byte_events", self.load_byte_events.len());
        note(&mut stats, "load_half_events", self.load_half_events.len());
        note(&mut stats, "load_word_unaligned_events", self.load_word_unaligned_events.len());
        note(&mut stats, "store_byte_events", self.store_byte_events.len());
        note(&mut stats, "store_half_events", self.store_half_events.len());
        note(&mut stats, "store_word_unaligned_events", self.store_word_unaligned_events.len());
        note(&mut stats, "store_conditional_events", self.store_conditional_events.len());
        note(&mut stats, "branch_events", self.branch_events.len());
        note(&mut stats, "jump_events", self.jump_events.len());
        note(&mut stats, "jumpi_events", self.jumpi_events.len());
        note(&mut stats, "jumpdirect_events", self.jumpdirect_events.len());
        note(&mut stats, "sext_events", self.sext_events.len());
        note(&mut stats, "ins_events", self.ins_events.len());
        note(&mut stats, "ext_events", self.ext_events.len());
        note(&mut stats, "maddsub_events", self.maddsub_events.len());
        note(&mut stats, "teq_events", self.teq_events.len());
        stats
    }

    /// The number of events of each kind, leaving out those without any.
    pub fn stats(&self) -> (r: NameMap)
        requires
            self.byte_lookups@.dom().finite(),
        ensures
            r@ == self.counts(),
    {
        let mut stats: NameMap = self.instruction_counts();
        let mut i: usize = 0;
        while i < self.precompile_events.groups.len()
            invariant
                i <= self.precompile_events.groups@.len(),
                stats@ == self.precompile_stats(i as int),
            decreases self.precompile_events.groups@.len() - i,
        {
            let mut name: String = String::from_str("syscall ");
            name.append(self.precompile_events.groups[i].0.name());
            note(&mut stats, name.as_str(), self.precompile_events.groups[i].1.len());
            i = i + 1;
        }
        note(&mut stats, "global_memory_initialize_events", self.global_memory_initialize_events.len());
        note(&mut stats, "global_memory_finalize_events", self.global_memory_finalize_events.len());
        note(&mut stats, "local_memory_access_events", self.cpu_local_memory_access.len());
        note(&mut stats, "bump_memory_events", self.bump_memory_events.len());
        note(&mut stats, "byte_lookups", self.byte_lookups.len());
        stats
    }
}

/// How often a lookup is needed.
pub open spec fn lookup_count(lookups: Map<u64, u64>, key: u64) -> u64 {
    if lookups.contains_key(key) {
        lookups[key]
    } else {
        0
    }
}

/// Adds lookups.
fn add_lookups(lookups: &mut WordMap, more: &WordMap)
    requires
        forall|k: u64| #[trigger] lookup_count(old(lookups)@, k) + lookup_count(more@, k) <= u64::MAX,
    ensures
        forall|k: u64| #[trigger]
            lookup_count(final(lookups)@, k) == lookup_count(old(lookups)@, k) + lookup_count(
                more@,
                k,
            ),
        final(lookups)@.dom() == old(lookups)@.dom().union(more@.dom()),
{
    let entries: Vec<(u64, u64)> = more.entries();
    let ghost was = lookups@;
    let mut i: usize = 0;
    while i < entries.len()
        invariant
            i <= entries@.len(),
            forall|j: int|
                0 <= j < entries@.len() ==> more@.contains_key((#[trigger] entries@[j]).0)
                    && more@[entries@[j].0] == entries@[j].1,
            forall|a: int, b: int|
                0 <= a < b < entries@.len() ==> (#[trigger] entries@[a]).0 != (#[trigger] entries@[b]).0,
            forall|k: u64| #[trigger] lookup_count(was, k) + lookup_count(more@, k) <= u64::MAX,
            forall|j: int|
                0 <= j < i ==> lookups@.contains_key((#[trigger] entries@[j]).0)
                    && lookup_count(lookups@, entries@[j].0) == lookup_count(was, entries@[j].0)
                    + entries@[j].1,
            forall|k: u64|
                (forall|j: int| 0 <= j < i ==> (#[trigger] entries@[j]).0 != k) ==> (#[trigger]
                lookups@.contains_key(k) <==> was.contains_key(k)) && lookup_count(lookups@, k)
                    == lookup_count(was, k),
        decreases entries@.len() - i,
    {
        let (key, count) = entries[i];
        let ghost before = lookups@;
        proof {
            assert(forall|j: int| 0 <= j < i ==> (#[trigger] entries@[j]).0 != entries@[i as int].0);
            assert(lookups@.contains_key(key) <==> was.contains_key(key));
            assert(lookup_count(lookups@, key) == lookup_count(was, key));
            assert(lookup_count(was, key) + lookup_count(more@, key) <= u64::MAX);
        }
        let so_far: u64 = match lookups.get(key) {
            Some(v) => v,
            None => 0,
        };
        lookups.insert(key, so_far + count);
        proof {
            assert forall|k: u64|
                (forall|j: int| 0 <= j < i + 1 ==> (#[trigger] entries@[j]).0 != k) implies (#[trigger]
            lookups@.contains_key(k) <==> was.contains_key(k)) && lookup_count(lookups@, k)
                == lookup_count(was, k) by {
                assert(entries@[i as int].0 != k);
                assert(before.contains_key(k) <==> was.contains_key(k));
            }
        }
        i = i + 1;
    }
    proof {
        assert forall|k: u64| #[trigger]
            lookup_count(lookups@, k) == lookup_count(was, k) + lookup_count(more@, k) by {
            if more@.contains_key(k) {
                let j = choose|j: int| 0 <= j < entries@.len() && (#[trigger] entries@[j]).0 == k;
                assert(lookup_count(lookups@, entries@[j].0) == lookup_count(was, entries@[j].0)
                    + entries@[j].1);
            } else {
                assert(forall|j: int| 0 <= j < entries@.len() ==> (#[trigger] entries@[j]).0 != k);
                assert(lookups@.contains_key(k) <==> was.contains_key(k));
            }
        }
        assert forall|k: u64| #[trigger] lookups@.dom().contains(k) <==> was.dom().union(
            more@.dom(),
        ).contains(k) by {
            if more@.contains_key(k) {
                let j = choose|j: int| 0 <= j < entries@.len() && (#[trigger] entries@[j]).0 == k;
                assert(lookups@.contains_key(entries@[j].0));
            } else {
                assert(forall|j: int| 0 <= j < entries@.len() ==> (#[trigger] entries@[j]).0 != k);
                assert(lookups@.contains_key(k) <==> was.contains_key(k));
            }
        }
        assert(lookups@.dom() =~= was.dom().union(more@.dom()));
    }
}

impl ExecutionRecord {
    /// Counts one more need of a lookup.
    pub fn add_byte_lookup_event(&mut self, blu_event: ByteLookupEvent)
        requires
            lookup_count(old(self).byte_lookups@, blu_event.number()) < u64::MAX,
        ensures
            final(self).byte_lookups@ == old(self).byte_lookups@.insert(
                blu_event.number(),
                (lookup_count(old(self).byte_lookups@, blu_event.number()) + 1) as u64,
            ),
            *final(self) == (ExecutionRecord { byte_lookups: final(self).byte_lookups, ..*old(self) }),
    {
        let key: u64 = blu_event.key();
        let so_far: u64 = match self.byte_lookups.get(key) {
            Some(v) => v,
            None => 0,
        };
        self.byte_lookups.insert(key, so_far + 1);
    }

    /// Adds the lookups of another record.
    pub fn add_byte_lookup_events_from_map(&mut self, more: &WordMap)
        requires
            forall|k: u64| #[trigger]
                lookup_count(old(self).byte_lookups@, k) + lookup_count(more@, k) <= u64::MAX,
        ensures
            forall|k: u64| #[trigger]
                lookup_count(final(self).byte_lookups@, k) == lookup_count(
                    old(self).byte_lookups@,
                    k,
                ) + lookup_count(more@, k),
            *final(self) == (ExecutionRecord { byte_lookups: final(self).byte_lookups, ..*old(self) }),
    {
        add_lookups(&mut self.byte_lookups, more);
    }

    /// The event lists are those of one record followed by those of another one. Conditional
    /// moves are not carried over.
    pub open spec fn concatenates(&self, first: &Self, second: &Self) -> bool {
        &&& self.cpu_events@ == first.cpu_events@ + second.cpu_events@
        &&& self.add_events@ == first.add_events@ + second.add_events@
        &&& self.addi_events@ == first.addi_events@ + second.addi_events@
        &&& self.add_noop_events@ == first.add_noop_events@ + second.add_noop_events@
        &&& self.sub_events@ == first.sub_events@ + second.sub_events@
        &&& self.alu_x0_events@ == first.alu_x0_events@ + second.alu_x0_events@
        &&& self.mul_events@ == first.mul_events@ + second.mul_events@
        &&& self.bitwise_events@ == first.bitwise_events@ + second.bitwise_events@
        &&& self.shift_left_events@ == first.shift_left_events@ + second.shift_left_events@
        &&& self.lui_events@ == first.lui_events@ + second.lui_events@
        &&& self.shift_right_events@ == first.shift_right_events@ + second.shift_right_events@
        &&& self.divrem_events@ == first.divrem_events@ + second.divrem_events@
        &&& self.lt_events@ == first.lt_events@ + second.lt_events@
        &&& self.slti_events@ == first.slti_events@ + second.slti_events@
        &&& self.cloclz_events@ == first.cloclz_events@ + second.cloclz_events@
        &&& self.load_word_events@ == first.load_word_events@ + second.load_word_events@
        &&& self.load_x0_events@ == first.load_x0_events@ + second.load_x0_events@
        &&& self.store_word_events@ == first.store_word_events@ + second.store_word_events@
        &&& self.load_byte_events@ == first.load_byte_events@ + second.load_byte_events@
        &&& self.load_half_events@ == first.load_half_events@ + second.load_half_events@
        &&& self.load_word_unaligned_events@ == first.load_word_unaligned_events@ + second.load_word_unaligned_events@
        &&& self.store_byte_events@ == first.store_byte_events@ + second.store_byte_events@
        &&& self.store_half_events@ == first.store_half_events@ + second.store_half_events@
        &&& self.store_word_unaligned_events@ == first.store_word_unaligned_events@ + second.store_word_unaligned_events@
        &&& self.store_conditional_events@ == first.store_conditional_events@ + second.store_conditional_events@
        &&& self.branch_events@ == first.branch_events@ + second.branch_events@
        &&& self.jump_events@ == first.jump_events@ + second.jump_events@
        &&& self.jumpi_events@ == first.jumpi_events@ + second.jumpi_events@
        &&& self.jumpdirect_events@ == first.jumpdirect_events@ + second.jumpdirect_events@
        &&& self.sext_events@ == first.sext_events@ + second.sext_events@
        &&& self.ins_events@ == first.ins_events@ + second.ins_events@
        &&& self.ext_events@ == first.ext_events@ + second.ext_events@
        &&& self.maddsub_events@ == first.maddsub_events@ + second.maddsub_events@
        &&& self.teq_events@ == first.teq_events@ + second.teq_events@
        &&& self.syscall_events@ == first.syscall_events@ + second.syscall_events@
        &&& self.cpu_local_memory_access@ == first.cpu_local_memory_access@ + second.cpu_local_memory_access@
        &&& self.global_lookup_events@ == first.global_lookup_events@ + second.global_lookup_events@
        &&& self.bump_clk_high_events@ == first.bump_clk_high_events@ + second.bump_clk_high_events@
        &&& self.bump_memory_events@ == first.bump_memory_events@ + second.bump_memory_events@
        &&& self.global_memory_initialize_events@ == first.global_memory_initialize_events@ + second.global_memory_initialize_events@
        &&& self.global_memory_finalize_events@ == first.global_memory_finalize_events@ + second.global_memory_finalize_events@
        &&& self.movcond_events == first.movcond_events
        &&& forall|c: SyscallCode| #[trigger]
            self.precompile_events.events(c) == first.precompile_events.events(c)
                + second.precompile_events.events(c)
        &&& forall|k: u64| #[trigger]
            lookup_count(self.byte_lookups@, k) == lookup_count(first.byte_lookups@, k)
                + lookup_count(second.byte_lookups@, k)
    }

    /// The public values that add up are the sums of two records; the others are those of the first.
    pub open spec fn adds_up(&self, first: &Self, second: &Self) -> bool {
        let (p, a, b) = (self.public_values, first.public_values, second.public_values);
        &&& p.global_init_count == a.global_init_count + b.global_init_count
        &&& p.global_finalize_count == a.global_finalize_count + b.global_finalize_count
        &&& p.global_count == a.global_count + b.global_count
        &&& forall|i: int|
            0 <= i < 7 ==> #[trigger] p.global_cumulative_sum_x@[i]
                == a.global_cumulative_sum_x@[i] + b.global_cumulative_sum_x@[i]
        &&& forall|i: int|
            0 <= i < 7 ==> #[trigger] p.global_cumulative_sum_y@[i]
                == a.global_cumulative_sum_y@[i] + b.global_cumulative_sum_y@[i]
        &&& p == (PublicValues {
            global_init_count: p.global_init_count,
            global_finalize_count: p.global_finalize_count,
            global_count: p.global_count,
            global_cumulative_sum_x: p.global_cumulative_sum_x,
            global_cumulative_sum_y: p.global_cumulative_sum_y,
            ..a
        })
    }

    /// The sums of two records fit.
    pub open spec fn sums_fit(&self, other: &Self) -> bool {
        let (a, b) = (self.public_values, other.public_values);
        &&& a.global_init_count + b.global_init_count <= u32::MAX
        &&& a.global_finalize_count + b.global_finalize_count <= u32::MAX
        &&& a.global_count + b.global_count <= u32::MAX
        &&& forall|i: int|
            0 <= i < 7 ==> #[trigger] a.global_cumulative_sum_x@[i] + b.global_cumulative_sum_x@[i]
                <= u32::MAX
        &&& forall|i: int|
            0 <= i < 7 ==> #[trigger] a.global_cumulative_sum_y@[i] + b.global_cumulative_sum_y@[i]
                <= u32::MAX
        &&& forall|k: u64| #[trigger]
            lookup_count(self.byte_lookups@, k) + lookup_count(other.byte_lookups@, k) <= u64::MAX
    }

    /// Moves the events of another record behind the events of this one.
    pub fn append(&mut self, other: &mut ExecutionRecord)
        requires
            old(self).precompile_events.wf(),
            old(other).precompile_events.wf(),
            old(self).sums_fit(old(other)),
            old(self).byte_lookups@.dom().finite(),
        ensures
            final(self).concatenates(old(self), old(other)),
            final(self).adds_up(old(self), old(other)),
            final(self).precompile_events.wf(),
            final(self).first_instruction_pc == old(self).first_instruction_pc,
            final(self).first_instruction_clk == old(self).first_instruction_clk,
            final(self).last_next_pc == old(self).last_next_pc,
            final(self).last_exit_code == old(self).last_exit_code,
            final(self).last_instruction_clk == old(self).last_instruction_clk,
            final(self).last_timestamp == old(self).last_timestamp,
            final(self).program == old(self).program,
            final(other).cpu_events@.len() == 0,
            final(other).add_events@.len() == 0,
            final(other).addi_events@.len() == 0,
            final(other).add_noop_events@.len() == 0,
            final(other).sub_events@.len() == 0,
            final(other).alu_x0_events@.len() == 0,
            final(other).mul_events@.len() == 0,
            final(other).bitwise_events@.len() == 0,
            final(other).shift_left_events@.len() == 0,
            final(other).lui_events@.len() == 0,
            final(other).shift_right_events@.len() == 0,
            final(other).divrem_events@.len() == 0,
            final(other).lt_events@.len() == 0,
            final(other).slti_events@.len() == 0,
            final(other).cloclz_events@.len() == 0,
            final(other).load_word_events@.len() == 0,
            final(other).load_x0_events@.len() == 0,
            final(other).store_word_events@.len() == 0,
            final(other).load_byte_events@.len() == 0,
            final(other).load_half_events@.len() == 0,
            final(other).load_word_unaligned_events@.len() == 0,
            final(other).store_byte_events@.len() == 0,
            final(other).store_half_events@.len() == 0,
            final(other).store_word_unaligned_events@.len() == 0,
            final(other).store_conditional_events@.len() == 0,
            final(other).branch_events@.len() == 0,
            final(other).jump_events@.len() == 0,
            final(other).jumpi_events@.len() == 0,
            final(other).jumpdirect_events@.len() == 0,
            final(other).sext_events@.len() == 0,
            final(other).ins_events@.len() == 0,
            final(other).ext_events@.len() == 0,
            final(other).maddsub_events@.len() == 0,
            final(other).teq_events@.len() == 0,
            final(other).syscall_events@.len() == 0,
            final(other).cpu_local_memory_access@.len() == 0,
            final(other).global_lookup_events@.len() == 0,
            final(other).bump_clk_high_events@.len() == 0,
            final(other).bump_memory_events@.len() == 0,
            final(other).global_memory_initialize_events@.len() == 0,
            final(other).global_memory_finalize_events@.len() == 0,
            final(other).precompile_events.groups@.len() == 0,
            final(other).movcond_events == old(other).movcond_events,
            final(other).public_values == old(other).public_values,
            final(other).program == old(other).program,
            final(other).first_instruction_pc == old(other).first_instruction_pc,
            final(other).first_instruction_clk == old(other).first_instruction_clk,
            final(other).last_next_pc == old(other).last_next_pc,
            final(other).last_exit_code == old(other).last_exit_code,
            final(other).last_instruction_clk == old(other).last_instruction_clk,
            final(other).last_timestamp == old(other).last_timestamp,
            final(other).byte_lookups == (if old(self).byte_lookups@.is_empty() {
                old(self).byte_lookups
            } else {
                old(other).byte_lookups
            }),
    {
        self.cpu_events.append(&mut other.cpu_events);
        self.add_events.append(&mut other.add_events);
        self.addi_events.append(&mut other.addi_events);
        self.add_noop_events.append(&mut other.add_noop_events);
        self.sub_events.append(&mut other.sub_events);
        self.alu_x0_events.append(&mut other.alu_x0_events);
        self.mul_events.append(&mut other.mul_events);
        self.bitwise_events.append(&mut other.bitwise_events);
        self.shift_left_events.append(&mut other.shift_left_events);
        self.lui_events.append(&mut other.lui_events);
        self.shift_right_events.append(&mut other.shift_right_events);
        self.divrem_events.append(&mut other.divrem_events);
        self.lt_events.append(&mut other.lt_events);
        self.slti_events.append(&mut other.slti_events);
        self.cloclz_events.append(&mut other.cloclz_events);
        self.load_word_events.append(&mut other.load_word_events);
        self.load_x0_events.append(&mut other.load_x0_events);
        self.store_word_events.append(&mut other.store_word_events);
        self.load_byte_events.append(&mut other.load_byte_events);
        self.load_half_events.append(&mut other.load_half_events);
        self.load_word_unaligned_events.append(&mut other.load_word_unaligned_events);
        self.store_byte_events.append(&mut other.store_byte_events);
        self.store_half_events.append(&mut other.store_half_events);
        self.store_word_unaligned_events.append(&mut other.store_word_unaligned_events);
        self.store_conditional_events.append(&mut other.store_conditional_events);
        self.branch_events.append(&mut other.branch_events);
        self.jump_events.append(&mut other.jump_events);
        self.jumpi_events.append(&mut other.jumpi_events);
        self.jumpdirect_events.append(&mut other.jumpdirect_events);
        self.sext_events.append(&mut other.sext_events);
        self.ins_events.append(&mut other.ins_events);
        self.ext_events.append(&mut other.ext_events);
        self.maddsub_events.append(&mut other.maddsub_events);
        self.teq_events.append(&mut other.teq_events);
        self.syscall_events.append(&mut other.syscall_events);
        self.precompile_events.append(&mut other.precompile_events);
        if self.byte_lookups.len() == 0 {
            proof {
                assert(old(self).byte_lookups@.dom() =~= Set::empty());
                assert forall|k: u64| lookup_count(old(self).byte_lookups@, k) == 0 by {
                    assert(!old(self).byte_lookups@.dom().contains(k));
                }
            }
            std::mem::swap(&mut self.byte_lookups, &mut other.byte_lookups);
        } else {
            add_lookups(&mut self.byte_lookups, &other.byte_lookups);
        }
        self.global_memory_initialize_events.append(&mut other.global_memory_initialize_events);
        self.global_memory_finalize_events.append(&mut other.global_memory_finalize_events);
        self.cpu_local_memory_access.append(&mut other.cpu_local_memory_access);
        self.global_lookup_events.append(&mut other.global_lookup_events);
        self.bump_clk_high_events.append(&mut other.bump_clk_high_events);
        self.bump_memory_events.append(&mut other.bump_memory_events);
        let mut p: PublicValues = self.public_values;
        let q: PublicValues = other.public_values;
        p.global_init_count = p.global_init_count + q.global_init_count;
        p.global_finalize_count = p.global_finalize_count + q.global_finalize_count;
        p.global_count = p.global_count + q.global_count;
        p.global_cumulative_sum_x = sums(p.global_cumulative_sum_x, q.global_cumulative_sum_x);
        p.global_cumulative_sum_y = sums(p.global_cumulative_sum_y, q.global_cumulative_sum_y);
        self.public_values = p;
    }
}

/// The sums of two lists of numbers.
fn sums(a: [u32; 7], b: [u32; 7]) -> (r: [u32; 7])
    requires
        forall|i: int| 0 <= i < 7 ==> #[trigger] a@[i] + b@[i] <= u32::MAX,
    ensures
        forall|i: int| 0 <= i < 7 ==> #[trigger] r@[i] == a@[i] + b@[i],
{
    let mut r: [u32; 7] = a;
    let mut i: usize = 0;
    while i < 7
        invariant
            i <= 7,
            forall|j: int| 0 <= j < 7 ==> #[trigger] a@[j] + b@[j] <= u32::MAX,
            forall|j: int| 0 <= j < i ==> #[trigger] r@[j] == a@[j] + b@[j],
            forall|j: int| i <= j < 7 ==> #[trigger] r@[j] == a@[j],
        decreases 7 - i,
    {
        let v: u32 = a[i] + b[i];
        r[i] = v;
        i = i + 1;
    }
    r
}

} // verus!
