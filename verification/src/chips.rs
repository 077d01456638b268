//! The chips: which list of a record an instruction's event belongs to, and what the event says.
//!
//! A record is read as a [`Ledger`], which holds the events of each chip in the order in which the
//! instructions retired. What is recorded of an instruction is a function of the machine before
//! and after it. A trace carries the values of the registers but not when they were last accessed,
//! so the events carry operand values and the accesses of loads and stores, and leave out the
//! register accesses and the accesses that precompiled operations make.
use vstd::prelude::*;

use crate::events::{
    AluEvent, BranchEvent, BumpClkHighEvent, CompAluEvent, JumpEvent, EllipticCurveAddEvent, EllipticCurveDecompressEvent, EllipticCurveDoubleEvent, KeccakSpongeEvent, MemInstrEvent,
    MemValue, MemoryReadRecord, MemoryRecordEnum, MemoryWriteRecord, MiscEvent, MovCondEvent,
    PrecompileEvent, SyscallEvent,
};
use crate::instruction::{self, Instruction};
use crate::machine::{self, Cpu};
use crate::opcode::{OpClass, Opcode};
use crate::precompiles::Precompile;
use crate::program::Program;
use crate::record::{CpuEvent, ExecutionRecord};
use crate::register::Register;
use crate::syscalls::SyscallCode;
use crate::vm;

verus! {

/// A chip that instructions are recorded for.
#[derive(Debug, Clone, Copy, PartialEq, Eq, Structural)]
pub enum Chip {
    Add,
    Addi,
    AddNoop,
    Sub,
    AluX0,
    Bitwise,
    ShiftLeft,
    Lui,
    ShiftRight,
    Lt,
    Slti,
    CloClz,
    Mul,
    DivRem,
    LoadWord,
    LoadX0,
    LoadByte,
    LoadHalf,
    LoadWordUnaligned,
    StoreWord,
    StoreByte,
    StoreHalf,
    StoreWordUnaligned,
    StoreConditional,
    Branch,
    Jump,
    Jumpi,
    JumpDirect,
    MovCond,
    Sext,
    Ins,
    Ext,
    MaddSub,
    Teq,
    Syscall,
}

/// The shapes of events.
#[derive(Debug, Clone, Copy, PartialEq, Eq, Structural)]
pub enum Family {
    Alu,
    Comp,
    Memory,
    Branch,
    Jump,
    MovCond,
    Misc,
    Syscall,
}

impl Chip {
    /// The chip, unless the destination is the zero register.
    pub open spec fn unless_zero(self, op_a: u8) -> Chip {
        if op_a == 0 {
            Chip::AluX0
        } else {
            self
        }
    }

    /// The chip of an instruction. No chip takes an instruction that does not exist.
    pub open spec fn of(i: Instruction) -> Option<Chip> {
        match i.opcode {
            Opcode::ADD => Some(
                if i.imm_b && i.imm_c && i.op_a == 0 && i.op_b == 0 && i.op_c == 0 {
                    Chip::AddNoop
                } else if i.imm_c && !i.imm_b {
                    Chip::Addi
                } else {
                    Chip::Add.unless_zero(i.op_a)
                },
            ),
            Opcode::SUB => Some(Chip::Sub.unless_zero(i.op_a)),
            Opcode::MULT | Opcode::MULTU => Some(Chip::Mul),
            Opcode::MUL => Some(Chip::Mul.unless_zero(i.op_a)),
            Opcode::DIV | Opcode::DIVU => Some(Chip::DivRem),
            Opcode::MOD | Opcode::MODU => Some(Chip::DivRem.unless_zero(i.op_a)),
            Opcode::SLL => Some(
                if i.imm_b {
                    Chip::Lui
                } else {
                    Chip::ShiftLeft.unless_zero(i.op_a)
                },
            ),
            Opcode::SRL | Opcode::SRA | Opcode::ROR => Some(Chip::ShiftRight.unless_zero(i.op_a)),
            Opcode::SLT | Opcode::SLTU => Some(
                if i.imm_c {
                    Chip::Slti
                } else {
                    Chip::Lt.unless_zero(i.op_a)
                },
            ),
            Opcode::AND | Opcode::OR | Opcode::XOR | Opcode::NOR => Some(
                Chip::Bitwise.unless_zero(i.op_a),
            ),
            Opcode::CLZ | Opcode::CLO => Some(Chip::CloClz.unless_zero(i.op_a)),
            Opcode::LW | Opcode::LL => Some(
                if i.op_a == 0 {
                    Chip::LoadX0
                } else {
                    Chip::LoadWord
                },
            ),
            Opcode::LB | Opcode::LBU => Some(Chip::LoadByte),
            Opcode::LH | Opcode::LHU => Some(Chip::LoadHalf),
            Opcode::LWL | Opcode::LWR => Some(Chip::LoadWordUnaligned),
            Opcode::SW => Some(Chip::StoreWord),
            Opcode::SB => Some(Chip::StoreByte),
            Opcode::SH => Some(Chip::StoreHalf),
            Opcode::SWL | Opcode::SWR => Some(Chip::StoreWordUnaligned),
            Opcode::SC => Some(Chip::StoreConditional),
            Opcode::BEQ | Opcode::BGEZ | Opcode::BGTZ | Opcode::BLEZ | Opcode::BLTZ
            | Opcode::BNE => Some(Chip::Branch),
            Opcode::Jump => Some(Chip::Jump),
            Opcode::Jumpi => Some(Chip::Jumpi),
            Opcode::JumpDirect => Some(Chip::JumpDirect),
            Opcode::MEQ | Opcode::MNE | Opcode::WSBH => Some(Chip::MovCond.unless_zero(i.op_a)),
            Opcode::SEXT => Some(Chip::Sext.unless_zero(i.op_a)),
            Opcode::INS => Some(Chip::Ins.unless_zero(i.op_a)),
            Opcode::EXT => Some(Chip::Ext.unless_zero(i.op_a)),
            Opcode::MADD | Opcode::MADDU | Opcode::MSUB | Opcode::MSUBU => Some(Chip::MaddSub),
            Opcode::TEQ => Some(Chip::Teq),
            Opcode::SYSCALL => Some(Chip::Syscall),
            Opcode::UNIMPL => None,
        }
    }

    /// The chip, unless the destination is the zero register.
    fn or_zero(self, op_a: u8) -> (r: Chip)
        ensures
            r == self.unless_zero(op_a),
    {
        if op_a == 0 {
            Chip::AluX0
        } else {
            self
        }
    }

    /// The chip of an instruction. No chip takes an instruction that does not exist.
    pub fn of_instruction(i: &Instruction) -> (r: Option<Chip>)
        ensures
            r == Chip::of(*i),
    {
        match i.opcode {
            Opcode::ADD => Some(
                if i.imm_b && i.imm_c && i.op_a == 0 && i.op_b == 0 && i.op_c == 0 {
                    Chip::AddNoop
                } else if i.imm_c && !i.imm_b {
                    Chip::Addi
                } else {
                    Chip::Add.or_zero(i.op_a)
                },
            ),
            Opcode::SUB => Some(Chip::Sub.or_zero(i.op_a)),
            Opcode::MULT | Opcode::MULTU => Some(Chip::Mul),
            Opcode::MUL => Some(Chip::Mul.or_zero(i.op_a)),
            Opcode::DIV | Opcode::DIVU => Some(Chip::DivRem),
            Opcode::MOD | Opcode::MODU => Some(Chip::DivRem.or_zero(i.op_a)),
            Opcode::SLL => Some(
                if i.imm_b {
                    Chip::Lui
                } else {
                    Chip::ShiftLeft.or_zero(i.op_a)
                },
            ),
            Opcode::SRL | Opcode::SRA | Opcode::ROR => Some(Chip::ShiftRight.or_zero(i.op_a)),
            Opcode::SLT | Opcode::SLTU => Some(
                if i.imm_c {
                    Chip::Slti
                } else {
                    Chip::Lt.or_zero(i.op_a)
                },
            ),
            Opcode::AND | Opcode::OR | Opcode::XOR | Opcode::NOR => Some(
                Chip::Bitwise.or_zero(i.op_a),
            ),
            Opcode::CLZ | Opcode::CLO => Some(Chip::CloClz.or_zero(i.op_a)),
            Opcode::LW | Opcode::LL => Some(
                if i.op_a == 0 {
                    Chip::LoadX0
                } else {
                    Chip::LoadWord
                },
            ),
            Opcode::LB | Opcode::LBU => Some(Chip::LoadByte),
            Opcode::LH | Opcode::LHU => Some(Chip::LoadHalf),
            Opcode::LWL | Opcode::LWR => Some(Chip::LoadWordUnaligned),
            Opcode::SW => Some(Chip::StoreWord),
            Opcode::SB => Some(Chip::StoreByte),
            Opcode::SH => Some(Chip::StoreHalf),
            Opcode::SWL | Opcode::SWR => Some(Chip::StoreWordUnaligned),
            Opcode::SC => Some(Chip::StoreConditional),
            Opcode::BEQ | Opcode::BGEZ | Opcode::BGTZ | Opcode::BLEZ | Opcode::BLTZ
            | Opcode::BNE => Some(Chip::Branch),
            Opcode::Jump => Some(Chip::Jump),
            Opcode::Jumpi => Some(Chip::Jumpi),
            Opcode::JumpDirect => Some(Chip::JumpDirect),
            Opcode::MEQ | Opcode::MNE | Opcode::WSBH => Some(Chip::MovCond.or_zero(i.op_a)),
            Opcode::SEXT => Some(Chip::Sext.or_zero(i.op_a)),
            Opcode::INS => Some(Chip::Ins.or_zero(i.op_a)),
            Opcode::EXT => Some(Chip::Ext.or_zero(i.op_a)),
            Opcode::MADD | Opcode::MADDU | Opcode::MSUB | Opcode::MSUBU => Some(Chip::MaddSub),
            Opcode::TEQ => Some(Chip::Teq),
            Opcode::SYSCALL => Some(Chip::Syscall),
            Opcode::UNIMPL => None,
        }
    }

    /// The shape of the chip's events.
    pub open spec fn family(self) -> Family {
        match self {
            Chip::Add | Chip::Addi | Chip::AddNoop | Chip::Sub | Chip::AluX0 | Chip::Bitwise | Chip::ShiftLeft | Chip::Lui | Chip::ShiftRight | Chip::Lt | Chip::Slti | Chip::CloClz => Family::Alu,
            Chip::Mul | Chip::DivRem => Family::Comp,
            Chip::LoadWord | Chip::LoadX0 | Chip::LoadByte | Chip::LoadHalf | Chip::LoadWordUnaligned | Chip::StoreWord | Chip::StoreByte | Chip::StoreHalf | Chip::StoreWordUnaligned | Chip::StoreConditional => Family::Memory,
            Chip::Branch => Family::Branch,
            Chip::Jump | Chip::Jumpi | Chip::JumpDirect => Family::Jump,
            Chip::MovCond => Family::MovCond,
            Chip::Sext | Chip::Ins | Chip::Ext | Chip::MaddSub | Chip::Teq => Family::Misc,
            Chip::Syscall => Family::Syscall,
        }
    }

    /// The shape of the chip's events.
    pub fn event_family(self) -> (r: Family)
        ensures
            r == self.family(),
    {
        match self {
            Chip::Add | Chip::Addi | Chip::AddNoop | Chip::Sub | Chip::AluX0 | Chip::Bitwise | Chip::ShiftLeft | Chip::Lui | Chip::ShiftRight | Chip::Lt | Chip::Slti | Chip::CloClz => Family::Alu,
            Chip::Mul | Chip::DivRem => Family::Comp,
            Chip::LoadWord | Chip::LoadX0 | Chip::LoadByte | Chip::LoadHalf | Chip::LoadWordUnaligned | Chip::StoreWord | Chip::StoreByte | Chip::StoreHalf | Chip::StoreWordUnaligned | Chip::StoreConditional => Family::Memory,
            Chip::Branch => Family::Branch,
            Chip::Jump | Chip::Jumpi | Chip::JumpDirect => Family::Jump,
            Chip::MovCond => Family::MovCond,
            Chip::Sext | Chip::Ins | Chip::Ext | Chip::MaddSub | Chip::Teq => Family::Misc,
            Chip::Syscall => Family::Syscall,
        }
    }

}

/// What the events of a precompiled operation say beside its system call.
pub enum Call {
    /// An addition of two points.
    EcAdd { shard: u32, clk: u64, p_ptr: u32, p: Seq<u32>, q_ptr: u32, q: Seq<u32> },
    /// A doubling of a point.
    EcDouble { shard: u32, clk: u64, p_ptr: u32, p: Seq<u32> },
    /// The search for the missing coordinate of a point.
    EcDecompress { shard: u32, clk: u64, ptr: u32, sign_bit: bool, x: Seq<u8>, y: Seq<u8> },
    /// A sponge over a number of words.
    Sponge { clk: u64, input_addr: u32, output_addr: u32, input_len_u32s: u32 },
    /// Nothing.
    Bare,
}

/// The number of memory accesses that an event of a precompiled operation lists.
pub open spec fn listed(event: PrecompileEvent) -> nat {
    event.local().len() + match event {
        PrecompileEvent::EcAdd(e) => e.p_memory_records@.len() + e.q_memory_records@.len(),
        PrecompileEvent::EcDouble(e) => e.p_memory_records@.len(),
        PrecompileEvent::EcDecompress(e) => e.x_memory_records@.len() + e.y_memory_records@.len(),
        _ => 0nat,
    }
}

/// What an event of a precompiled operation says beside the memory accesses that it lists.
pub open spec fn call_of(event: PrecompileEvent) -> Call {
    match event {
        PrecompileEvent::EcAdd(e) => Call::EcAdd {
            shard: e.shard,
            clk: e.clk,
            p_ptr: e.p_ptr,
            p: e.p@,
            q_ptr: e.q_ptr,
            q: e.q@,
        },
        PrecompileEvent::EcDouble(e) => Call::EcDouble {
            shard: e.shard,
            clk: e.clk,
            p_ptr: e.p_ptr,
            p: e.p@,
        },
        PrecompileEvent::EcDecompress(e) => Call::EcDecompress {
            shard: e.shard,
            clk: e.clk,
            ptr: e.ptr,
            sign_bit: e.sign_bit,
            x: e.x_bytes@,
            y: e.decompressed_y_bytes@,
        },
        PrecompileEvent::KeccakSponge(e) => Call::Sponge {
            clk: e.clk,
            input_addr: e.input_addr,
            output_addr: e.output_addr,
            input_len_u32s: e.input_len_u32s,
        },
        PrecompileEvent::Other(_) => Call::Bare,
    }
}

/// The events of a record, by chip.
#[verifier::ext_equal]
pub struct Ledger {
    /// The address and the clock of the first instruction, if any.
    pub first: (Option<u32>, Option<u64>),
    /// The address behind the last instruction, its exit code, its clock and the clock behind it.
    pub last: (u32, u32, u64, u64),
    pub cpu: Seq<CpuEvent>,
    pub bumps: Seq<BumpClkHighEvent>,
    pub alu: Map<Chip, Seq<AluEvent>>,
    pub comp: Map<Chip, Seq<CompAluEvent>>,
    pub memory: Map<Chip, Seq<MemInstrEvent>>,
    pub branch: Seq<BranchEvent>,
    pub jump: Map<Chip, Seq<JumpEvent>>,
    pub movcond: Seq<MovCondEvent>,
    pub misc: Map<Chip, Seq<MiscEvent>>,
    pub syscall: Seq<SyscallEvent>,
    /// The calls of precompiled operations, with the number of memory accesses that they list.
    pub calls: Map<SyscallCode, Seq<(SyscallEvent, Call, nat)>>,
}

impl Ledger {
    /// Nothing recorded.
    pub open spec fn empty() -> Ledger {
        Ledger {
            first: (None, None),
            last: (0, 0, 0, 0),
            cpu: Seq::empty(),
            bumps: Seq::empty(),
            alu: Map::new(|chip: Chip| true, |chip: Chip| Seq::empty()),
            comp: Map::new(|chip: Chip| true, |chip: Chip| Seq::empty()),
            memory: Map::new(|chip: Chip| true, |chip: Chip| Seq::empty()),
            branch: Seq::empty(),
            jump: Map::new(|chip: Chip| true, |chip: Chip| Seq::empty()),
            movcond: Seq::empty(),
            misc: Map::new(|chip: Chip| true, |chip: Chip| Seq::empty()),
            syscall: Seq::empty(),
            calls: Map::new(|code: SyscallCode| true, |code: SyscallCode| Seq::empty()),
        }
    }

    /// The number of events of a chip.
    pub open spec fn count(self, chip: Chip) -> nat {
        match chip.family() {
            Family::Alu => self.alu[chip].len(),
            Family::Comp => self.comp[chip].len(),
            Family::Memory => self.memory[chip].len(),
            Family::Branch => self.branch.len(),
            Family::Jump => self.jump[chip].len(),
            Family::MovCond => self.movcond.len(),
            Family::Misc => self.misc[chip].len(),
            Family::Syscall => self.syscall.len(),
        }
    }
}

impl ExecutionRecord {
    /// The events of a chip of this shape.
    pub open spec fn alu_list(&self, chip: Chip) -> Seq<AluEvent> {
        match chip {
            Chip::Add => self.add_events@,
            Chip::Addi => self.addi_events@,
            Chip::AddNoop => self.add_noop_events@,
            Chip::Sub => self.sub_events@,
            Chip::AluX0 => self.alu_x0_events@,
            Chip::Bitwise => self.bitwise_events@,
            Chip::ShiftLeft => self.shift_left_events@,
            Chip::Lui => self.lui_events@,
            Chip::ShiftRight => self.shift_right_events@,
            Chip::Lt => self.lt_events@,
            Chip::Slti => self.slti_events@,
            Chip::CloClz => self.cloclz_events@,
            _ => Seq::empty(),
        }
    }

    /// The events of a chip of this shape.
    pub open spec fn comp_list(&self, chip: Chip) -> Seq<CompAluEvent> {
        match chip {
            Chip::Mul => self.mul_events@,
            Chip::DivRem => self.divrem_events@,
            _ => Seq::empty(),
        }
    }

    /// The events of a chip of this shape.
    pub open spec fn memory_list(&self, chip: Chip) -> Seq<MemInstrEvent> {
        match chip {
            Chip::LoadWord => self.load_word_events@,
            Chip::LoadX0 => self.load_x0_events@,
            Chip::LoadByte => self.load_byte_events@,
            Chip::LoadHalf => self.load_half_events@,
            Chip::LoadWordUnaligned => self.load_word_unaligned_events@,
            Chip::StoreWord => self.store_word_events@,
            Chip::StoreByte => self.store_byte_events@,
            Chip::StoreHalf => self.store_half_events@,
            Chip::StoreWordUnaligned => self.store_word_unaligned_events@,
            Chip::StoreConditional => self.store_conditional_events@,
            _ => Seq::empty(),
        }
    }

    /// The events of a chip of this shape.
    pub open spec fn jump_list(&self, chip: Chip) -> Seq<JumpEvent> {
        match chip {
            Chip::Jump => self.jump_events@,
            Chip::Jumpi => self.jumpi_events@,
            Chip::JumpDirect => self.jumpdirect_events@,
            _ => Seq::empty(),
        }
    }

    /// The events of a chip of this shape.
    pub open spec fn misc_list(&self, chip: Chip) -> Seq<MiscEvent> {
        match chip {
            Chip::Sext => self.sext_events@,
            Chip::Ins => self.ins_events@,
            Chip::Ext => self.ext_events@,
            Chip::MaddSub => self.maddsub_events@,
            Chip::Teq => self.teq_events@,
            _ => Seq::empty(),
        }
    }

    /// The events of the record, by chip.
    pub open spec fn ledger(&self) -> Ledger {
        Ledger {
            first: (self.first_instruction_pc, self.first_instruction_clk),
            last: (
                self.last_next_pc,
                self.last_exit_code,
                self.last_instruction_clk,
                self.last_timestamp,
            ),
            cpu: self.cpu_events@,
            bumps: self.bump_clk_high_events@,
            alu: Map::new(|chip: Chip| true, |chip: Chip| self.alu_list(chip)),
            comp: Map::new(|chip: Chip| true, |chip: Chip| self.comp_list(chip)),
            memory: Map::new(|chip: Chip| true, |chip: Chip| self.memory_list(chip)),
            branch: self.branch_events@,
            jump: Map::new(|chip: Chip| true, |chip: Chip| self.jump_list(chip)),
            movcond: self.movcond_events@,
            misc: Map::new(|chip: Chip| true, |chip: Chip| self.misc_list(chip)),
            syscall: self.syscall_events@,
            calls: Map::new(
                |code: SyscallCode| true,
                |code: SyscallCode|
                    self.precompile_events.events(code).map_values(
                        |e: (SyscallEvent, PrecompileEvent)| (e.0, call_of(e.1), listed(e.1)),
                    ),
            ),
        }
    }

    /// What no ledger holds is as before.
    pub open spec fn same_beside_ledger(&self, before: &Self) -> bool {
        &&& self.program == before.program
        &&& self.cpu_local_memory_access == before.cpu_local_memory_access
        &&& self.global_lookup_events == before.global_lookup_events
        &&& self.bump_memory_events == before.bump_memory_events
        &&& self.byte_lookups == before.byte_lookups
        &&& self.global_memory_initialize_events == before.global_memory_initialize_events
        &&& self.global_memory_finalize_events == before.global_memory_finalize_events
        &&& self.public_values == before.public_values
    }

    /// The record holds nothing beside its program, its ledger, and the words that a run
    /// initializes and finalizes.
    pub open spec fn only_ledger_and_globals(&self) -> bool {
        &&& self.precompile_events.wf()
        &&& self.cpu_local_memory_access@.len() == 0
        &&& self.global_lookup_events@.len() == 0
        &&& self.bump_memory_events@.len() == 0
        &&& self.byte_lookups@.is_empty()
        &&& self.public_values.zero()
    }

    /// The record holds nothing beside its program and its ledger.
    pub open spec fn only_ledger(&self) -> bool {
        &&& self.only_ledger_and_globals()
        &&& self.global_memory_initialize_events@.len() == 0
        &&& self.global_memory_finalize_events@.len() == 0
    }
}

/// A blank record has an empty ledger.
pub proof fn a_blank_record_has_an_empty_ledger(record: ExecutionRecord)
    requires
        record.blank(),
    ensures
        record.ledger() == Ledger::empty(),
        record.only_ledger(),
{
    let l = record.ledger();
    let e = Ledger::empty();
    assert forall|code: SyscallCode| record.precompile_events.events(code).len() == 0 by {
        record.precompile_events.lemma_absent(code);
    }
    assert(l.calls =~= e.calls) by {
        assert forall|code: SyscallCode| l.calls[code] =~= e.calls[code] by {
            assert(record.precompile_events.events(code).len() == 0);
        }
    }
    assert forall|chip: Chip|
        l.alu[chip] =~= e.alu[chip] && l.comp[chip] =~= e.comp[chip] && l.memory[chip]
            =~= e.memory[chip] && l.jump[chip] =~= e.jump[chip] && l.misc[chip] =~= e.misc[chip] by {}
    assert(l.alu =~= e.alu);
    assert(l.comp =~= e.comp);
    assert(l.memory =~= e.memory);
    assert(l.jump =~= e.jump);
    assert(l.misc =~= e.misc);
    assert(l =~= e);
}

/// What the events of a retired instruction are made of.
#[derive(Debug, Clone, Copy)]
pub struct Retired {
    pub instruction: Instruction,
    /// The clock before the instruction, before any jump to the next window.
    pub prev_clk: u64,
    /// The clock of the instruction.
    pub clk: u64,
    /// The clock behind the instruction.
    pub end_clk: u64,
    pub pc: u32,
    pub next_pc: u32,
    pub next_next_pc: u32,
    /// The low word of the result, or what the first register holds behind the instruction.
    pub a: u32,
    /// The high word of the result, for the opcodes that have one.
    pub hi: u32,
    pub b: u32,
    pub c: u32,
    /// What the first register held before the instruction.
    pub prev_a: u32,
    /// The number of the system call.
    pub id: u32,
    /// The preimage of the first word that the instruction accesses.
    pub word: MemValue,
}

/// The address that the first access of an instruction goes to.
pub open spec fn first_access(before: Cpu, i: Instruction) -> u32 {
    if i.opcode is SYSCALL {
        machine::word_at(before.reg(Register::A1.number()), 16)
    } else {
        (before.address(i) - before.address(i) % 4) as u32
    }
}

/// Whether the events of an instruction show the first word that it accesses.
pub open spec fn shows_access(before: Cpu, i: Instruction) -> bool {
    match i.opcode.class() {
        OpClass::Load | OpClass::Store => true,
        OpClass::Syscall => SyscallCode::decode(before.reg(Register::V0.number()))
            == SyscallCode::KECCAK_SPONGE,
        _ => false,
    }
}

/// Operand `b` of an instruction.
pub open spec fn operand_b(before: Cpu, i: Instruction) -> u32 {
    if i.b_is_register() {
        before.reg(instruction::reg_of(i.op_b))
    } else {
        match i.opcode.class() {
            OpClass::Branch => 0,
            OpClass::Syscall => before.reg(Register::A0.number()),
            _ => i.op_b,
        }
    }
}

/// Operand `c` of an instruction.
pub open spec fn operand_c(before: Cpu, i: Instruction) -> u32 {
    if i.c_is_register() {
        before.reg(instruction::reg_of(i.op_c))
    } else {
        match i.opcode.class() {
            OpClass::Syscall => before.reg(Register::A1.number()),
            _ => i.op_c,
        }
    }
}

/// The operands of an operation on a curve, as lists of words.
#[verifier::ext_equal]
pub struct Operands {
    pub first: Seq<u32>,
    pub second: Seq<u32>,
}

/// No operands.
pub open spec fn no_operands() -> Operands {
    Operands { first: Seq::empty(), second: Seq::empty() }
}

/// The operands that an instruction is about to find in memory.
pub open spec fn operands(before: Cpu, i: Instruction) -> Operands {
    let arg1 = before.reg(Register::A0.number());
    let arg2 = before.reg(Register::A1.number());
    if i.opcode is SYSCALL {
        match Precompile::of(SyscallCode::decode(before.reg(Register::V0.number()))) {
            Some(op) => {
                let n = op.width();
                match op {
                    Precompile::EcAdd(_) | Precompile::EdAdd => Operands {
                        first: before.bus.peek_many(arg1, n, n),
                        second: before.bus.peek_many(arg2, n, 0),
                    },
                    Precompile::EcDouble(_) => Operands {
                        first: before.bus.peek_many(arg1, n, 0),
                        second: Seq::empty(),
                    },
                    Precompile::EcDecompress(_) => Operands {
                        first: before.bus.peek_many(machine::word_at(arg1, n as int), n, 0),
                        second: Seq::empty(),
                    },
                    _ => no_operands(),
                }
            },
            None => no_operands(),
        }
    } else {
        no_operands()
    }
}

/// The little-endian bytes of words.
pub open spec fn bytes_of_words(words: Seq<u32>) -> Seq<u8> {
    Seq::new(4 * words.len(), |k: int| vm::byte_of(words[k / 4], (k % 4) as u32) as u8)
}

/// An instruction that takes the machine from `before` to `after`.
pub open spec fn retired(before: Cpu, after: Cpu, i: Instruction, max_syscall_cycles: u32) -> Retired {
    Retired {
        instruction: i,
        prev_clk: before.clk,
        clk: vm::bumped_clk(before.clk, max_syscall_cycles) as u64,
        end_clk: after.clk,
        pc: before.pc,
        next_pc: after.pc,
        next_next_pc: after.next_pc,
        a: if i.opcode.lo_hi() {
            after.reg(Register::LO.number())
        } else {
            after.reg(i.op_a)
        },
        hi: if i.opcode.lo_hi() {
            after.reg(Register::HI.number())
        } else {
            0
        },
        b: operand_b(before, i),
        c: operand_c(before, i),
        prev_a: before.reg(i.op_a),
        id: before.reg(Register::V0.number()),
        word: if shows_access(before, i) {
            before.bus.entry(first_access(before, i))
        } else {
            MemValue { clk: 0, value: 0 }
        },
    }
}

impl Retired {
    /// What the processor did.
    pub open spec fn cpu_event(self) -> CpuEvent {
        CpuEvent {
            clk: self.clk,
            pc: self.pc,
            next_pc: self.next_pc,
            next_next_pc: self.next_next_pc,
            exit_code: 0,
        }
    }

    /// The jump of the clock before the instruction.
    pub open spec fn bump_event(self) -> BumpClkHighEvent {
        BumpClkHighEvent {
            prev_clk: self.prev_clk,
            increment: (self.clk - self.prev_clk) as u64,
            pc: self.pc,
            next_pc: self.next_pc,
        }
    }

    /// An arithmetic or logic instruction.
    pub open spec fn alu_event(self) -> AluEvent {
        AluEvent {
            clk: self.clk,
            pc: self.pc,
            next_pc: self.next_pc,
            opcode: self.instruction.opcode,
            hi: self.hi,
            a: self.a,
            b: self.b,
            c: self.c,
            a_record: None,
            b_record: None,
            c_record: None,
        }
    }

    /// A multiplication or division.
    pub open spec fn comp_event(self) -> CompAluEvent {
        CompAluEvent {
            clk: self.clk,
            pc: self.pc,
            next_pc: self.next_pc,
            opcode: self.instruction.opcode,
            hi: self.hi,
            a: self.a,
            b: self.b,
            c: self.c,
            hi_record: no_write(),
            hi_record_is_real: false,
            a_record: None,
            b_record: None,
            c_record: None,
        }
    }

    /// The address of a load or store.
    pub open spec fn address(self) -> u32 {
        self.b.wrapping_add(self.c)
    }

    /// The access of memory by a load or store.
    pub open spec fn mem_access(self) -> MemoryRecordEnum {
        if self.instruction.opcode.class() == OpClass::Store {
            MemoryRecordEnum::Write(
                MemoryWriteRecord {
                    value: vm::stored(
                        self.instruction.opcode,
                        self.address(),
                        self.word.value,
                        self.prev_a,
                    ),
                    timestamp: self.clk,
                    prev_value: self.word.value,
                    prev_timestamp: self.word.clk,
                },
            )
        } else {
            MemoryRecordEnum::Read(
                MemoryReadRecord {
                    value: self.word.value,
                    timestamp: self.clk,
                    prev_timestamp: self.word.clk,
                },
            )
        }
    }

    /// A load or store.
    pub open spec fn memory_event(self) -> MemInstrEvent {
        MemInstrEvent {
            clk: self.clk,
            pc: self.pc,
            next_pc: self.next_pc,
            opcode: self.instruction.opcode,
            a: self.a,
            b: self.b,
            c: self.c,
            mem_access: self.mem_access(),
            prev_a_val: self.prev_a,
            a_record: None,
            b_record: None,
            c_record: None,
        }
    }

    /// A branch.
    pub open spec fn branch_event(self) -> BranchEvent {
        BranchEvent {
            clk: self.clk,
            pc: self.pc,
            next_pc: self.next_pc,
            next_next_pc: self.next_next_pc,
            opcode: self.instruction.opcode,
            a: self.a,
            b: self.b,
            c: self.c,
            a_record: None,
            b_record: None,
            c_record: None,
        }
    }

    /// A jump.
    pub open spec fn jump_event(self) -> JumpEvent {
        JumpEvent {
            clk: self.clk,
            pc: self.pc,
            next_pc: self.next_pc,
            next_next_pc: self.next_next_pc,
            opcode: self.instruction.opcode,
            a: self.a,
            b: self.b,
            c: self.c,
            a_record: None,
            b_record: None,
            c_record: None,
        }
    }

    /// A conditional move.
    pub open spec fn movcond_event(self) -> MovCondEvent {
        MovCondEvent {
            clk: self.clk,
            pc: self.pc,
            next_pc: self.next_pc,
            opcode: self.instruction.opcode,
            a: self.a,
            b: self.b,
            c: self.c,
            prev_a: self.prev_a,
            a_record: None,
            b_record: None,
            c_record: None,
        }
    }

    /// A bit-field, trap or multiply-accumulate instruction.
    pub open spec fn misc_event(self) -> MiscEvent {
        MiscEvent {
            clk: self.clk,
            pc: self.pc,
            next_pc: self.next_pc,
            opcode: self.instruction.opcode,
            a: self.a,
            b: self.b,
            c: self.c,
            prev_a: self.prev_a,
            hi_record: no_write(),
            a_record: None,
            b_record: None,
            c_record: None,
        }
    }

    /// A system call. Shards are numbered only when their records are put in order.
    pub open spec fn syscall_event(self) -> SyscallEvent {
        SyscallEvent {
            pc: self.pc,
            next_pc: self.next_pc,
            shard: 0,
            clk: self.clk,
            a_record: no_write(),
            a_record_is_real: false,
            b_record: None,
            c_record: None,
            syscall_id: self.id,
            arg1: self.b,
            arg2: self.c,
        }
    }

    /// The system call.
    pub open spec fn code(self) -> SyscallCode {
        SyscallCode::decode(self.id)
    }

    /// What the event of a precompiled operation says beside its system call.
    pub open spec fn call(self, operands: Operands) -> Call {
        match Precompile::of(self.code()) {
            Some(Precompile::EcAdd(_)) | Some(Precompile::EdAdd) => Call::EcAdd {
                shard: 0,
                clk: self.clk,
                p_ptr: self.b,
                p: operands.first,
                q_ptr: self.c,
                q: operands.second,
            },
            Some(Precompile::EcDouble(_)) => Call::EcDouble {
                shard: 0,
                clk: self.clk,
                p_ptr: self.b,
                p: operands.first,
            },
            Some(Precompile::EcDecompress(f)) => Call::EcDecompress {
                shard: 0,
                clk: self.clk,
                ptr: self.b,
                sign_bit: self.c != 0,
                x: bytes_of_words(operands.first),
                y: match Precompile::EcDecompress(f).coordinate(operands.first, self.c) {
                    Ok(y) => bytes_of_words(y),
                    Err(_) => Seq::empty(),
                },
            },
            _ => if self.code() == SyscallCode::KECCAK_SPONGE {
                Call::Sponge {
                    clk: self.clk,
                    input_addr: self.b,
                    output_addr: self.c,
                    input_len_u32s: self.word.value,
                }
            } else {
                Call::Bare
            },
        }
    }

    /// Enough words are given for the operands.
    pub open spec fn has_operands(self, operands: Operands) -> bool {
        self.instruction.opcode is SYSCALL ==> match Precompile::of(self.code()) {
            Some(Precompile::EcDecompress(f)) => operands.first.len() == f.width(),
            _ => true,
        }
    }
}

/// A write that is not shown.
pub open spec fn no_write() -> MemoryWriteRecord {
    MemoryWriteRecord { value: 0, timestamp: 0, prev_value: 0, prev_timestamp: 0 }
}

/// Whether a system call runs a precompiled operation.
pub open spec fn precompiled(code: SyscallCode) -> bool {
    Precompile::of(code) is Some || code == SyscallCode::SHA_EXTEND || code
        == SyscallCode::SHA_COMPRESS || code == SyscallCode::KECCAK_SPONGE
}

impl Ledger {
    /// The ledger after the clock and the processor are noted.
    pub open spec fn with_cpu(self, r: Retired) -> Ledger {
        Ledger {
            first: (
                if self.first.0 is Some {
                    self.first.0
                } else {
                    Some(r.pc)
                },
                if self.first.1 is Some {
                    self.first.1
                } else {
                    Some(r.clk)
                },
            ),
            last: (r.next_pc, 0, r.clk, r.end_clk),
            cpu: self.cpu.push(r.cpu_event()),
            bumps: if r.clk != r.prev_clk {
                self.bumps.push(r.bump_event())
            } else {
                self.bumps
            },
            ..self
        }
    }

    /// The ledger after a system call is noted.
    pub open spec fn with_syscall(self, r: Retired, operands: Operands) -> Ledger {
        Ledger {
            syscall: self.syscall.push(r.syscall_event()),
            calls: if precompiled(r.code()) {
                self.calls.insert(
                    r.code(),
                    self.calls[r.code()].push((r.syscall_event(), r.call(operands), 0nat)),
                )
            } else {
                self.calls
            },
            ..self
        }
    }

    /// The ledger after the event of a chip is noted.
    pub open spec fn with_chip(self, chip: Chip, r: Retired, operands: Operands) -> Ledger {
        match chip.family() {
            Family::Alu => Ledger {
                alu: self.alu.insert(chip, self.alu[chip].push(r.alu_event())),
                ..self
            },
            Family::Comp => Ledger {
                comp: self.comp.insert(chip, self.comp[chip].push(r.comp_event())),
                ..self
            },
            Family::Memory => Ledger {
                memory: self.memory.insert(chip, self.memory[chip].push(r.memory_event())),
                ..self
            },
            Family::Branch => Ledger { branch: self.branch.push(r.branch_event()), ..self },
            Family::Jump => Ledger {
                jump: self.jump.insert(chip, self.jump[chip].push(r.jump_event())),
                ..self
            },
            Family::MovCond => Ledger { movcond: self.movcond.push(r.movcond_event()), ..self },
            Family::Misc => Ledger {
                misc: self.misc.insert(chip, self.misc[chip].push(r.misc_event())),
                ..self
            },
            Family::Syscall => self.with_syscall(r, operands),
        }
    }

    /// The ledger after a retired instruction is noted.
    pub open spec fn noting(self, r: Retired, operands: Operands) -> Ledger {
        match Chip::of(r.instruction) {
            Some(chip) => self.with_cpu(r).with_chip(chip, r, operands),
            None => self.with_cpu(r),
        }
    }
}

/// The ledger after the first `n` instructions from `start`. What happens inside an unconstrained
/// block leaves no events: the machine forgets it when it leaves the block.
pub open spec fn traced(
    ledger: Ledger,
    start: Cpu,
    program: Program,
    max_syscall_cycles: u32,
    n: nat,
) -> Ledger
    decreases n,
{
    if n == 0 {
        ledger
    } else {
        let before = start.steps(program, max_syscall_cycles, (n - 1) as nat)->Some_0;
        let after = start.steps(program, max_syscall_cycles, n)->Some_0;
        let so_far = traced(ledger, start, program, max_syscall_cycles, (n - 1) as nat);
        if before.fork is Some {
            so_far
        } else {
            let i = program.at(before.pc);
            so_far.noting(retired(before, after, i, max_syscall_cycles), operands(before, i))
        }
    }
}

/// The number of instructions among the first `n` from `start` that retire outside unconstrained
/// blocks.
pub open spec fn constrained(
    start: Cpu,
    program: Program,
    max_syscall_cycles: u32,
    n: nat,
) -> nat
    decreases n,
{
    if n == 0 {
        0
    } else {
        let before = start.steps(program, max_syscall_cycles, (n - 1) as nat)->Some_0;
        constrained(start, program, max_syscall_cycles, (n - 1) as nat) + if before.fork is Some {
            0nat
        } else {
            1nat
        }
    }
}

/// Every instruction that retires outside unconstrained blocks has a processor event, and the first
/// of them is the first instruction of the ledger.
pub proof fn every_instruction_has_an_event(
    start: Cpu,
    program: Program,
    max_syscall_cycles: u32,
    n: nat,
)
    ensures
        ({
            let l = traced(Ledger::empty(), start, program, max_syscall_cycles, n);
            &&& l.cpu.len() == constrained(start, program, max_syscall_cycles, n)
            &&& l.cpu.len() == 0 ==> l.first == (None::<u32>, None::<u64>)
            &&& l.cpu.len() >= 1 ==> l.first == (Some(l.cpu[0].pc), Some(l.cpu[0].clk)) && l.last.0
                == l.cpu.last().next_pc && l.last.2 == l.cpu.last().clk
            &&& n >= 1 && start.fork is None ==> l.cpu.len() >= 1 && l.cpu[0].pc == start.pc
        }),
    decreases n,
{
    if n > 0 {
        every_instruction_has_an_event(start, program, max_syscall_cycles, (n - 1) as nat);
    }
}

/// An instruction with a chip adds one event to its own chip and none to any other.
pub proof fn an_instruction_is_recorded_by_its_own_chip(
    ledger: Ledger,
    r: Retired,
    operands: Operands,
    chip: Chip,
)
    requires
        forall|c: Chip|
            ledger.alu.contains_key(c) && ledger.comp.contains_key(c) && ledger.memory.contains_key(c)
                && ledger.jump.contains_key(c) && ledger.misc.contains_key(c),
    ensures
        ledger.noting(r, operands).count(chip) == ledger.count(chip) + if Chip::of(r.instruction) == Some(chip) {
            1nat
        } else {
            0nat
        },
{
}

/// Records an event of a chip.
fn note_alu(record: &mut ExecutionRecord, chip: Chip, event: AluEvent)
    requires
        chip.family() == Family::Alu,
        old(record).precompile_events.wf(),
    ensures
        final(record).precompile_events.wf(),
        final(record).same_beside_ledger(old(record)),
        final(record).ledger() == (Ledger {
            alu: old(record).ledger().alu.insert(chip, old(record).ledger().alu[chip].push(event)),
            ..old(record).ledger()
        }),
{
    let ghost before = record.ledger();
    match chip {
        Chip::Add => record.add_events.push(event),
        Chip::Addi => record.addi_events.push(event),
        Chip::AddNoop => record.add_noop_events.push(event),
        Chip::Sub => record.sub_events.push(event),
        Chip::AluX0 => record.alu_x0_events.push(event),
        Chip::Bitwise => record.bitwise_events.push(event),
        Chip::ShiftLeft => record.shift_left_events.push(event),
        Chip::Lui => record.lui_events.push(event),
        Chip::ShiftRight => record.shift_right_events.push(event),
        Chip::Lt => record.lt_events.push(event),
        Chip::Slti => record.slti_events.push(event),
        Chip::CloClz => record.cloclz_events.push(event),
        _ => {},
    }
    proof {
        assert(record.ledger().alu =~= before.alu.insert(chip, before.alu[chip].push(event)));
        assert(record.ledger() =~= (Ledger {
            alu: before.alu.insert(chip, before.alu[chip].push(event)),
            ..before
        }));
    }
}

/// Records an event of a chip.
fn note_comp(record: &mut ExecutionRecord, chip: Chip, event: CompAluEvent)
    requires
        chip.family() == Family::Comp,
        old(record).precompile_events.wf(),
    ensures
        final(record).precompile_events.wf(),
        final(record).same_beside_ledger(old(record)),
        final(record).ledger() == (Ledger {
            comp: old(record).ledger().comp.insert(chip, old(record).ledger().comp[chip].push(event)),
            ..old(record).ledger()
        }),
{
    let ghost before = record.ledger();
    match chip {
        Chip::Mul => record.mul_events.push(event),
        Chip::DivRem => record.divrem_events.push(event),
        _ => {},
    }
    proof {
        assert(record.ledger().comp =~= before.comp.insert(chip, before.comp[chip].push(event)));
        assert(record.ledger() =~= (Ledger {
            comp: before.comp.insert(chip, before.comp[chip].push(event)),
            ..before
        }));
    }
}

/// Records an event of a chip.
fn note_memory(record: &mut ExecutionRecord, chip: Chip, event: MemInstrEvent)
    requires
        chip.family() == Family::Memory,
        old(record).precompile_events.wf(),
    ensures
        final(record).precompile_events.wf(),
        final(record).same_beside_ledger(old(record)),
        final(record).ledger() == (Ledger {
            memory: old(record).ledger().memory.insert(chip, old(record).ledger().memory[chip].push(event)),
            ..old(record).ledger()
        }),
{
    let ghost before = record.ledger();
    match chip {
        Chip::LoadWord => record.load_word_events.push(event),
        Chip::LoadX0 => record.load_x0_events.push(event),
        Chip::LoadByte => record.load_byte_events.push(event),
        Chip::LoadHalf => record.load_half_events.push(event),
        Chip::LoadWordUnaligned => record.load_word_unaligned_events.push(event),
        Chip::StoreWord => record.store_word_events.push(event),
        Chip::StoreByte => record.store_byte_events.push(event),
        Chip::StoreHalf => record.store_half_events.push(event),
        Chip::StoreWordUnaligned => record.store_word_unaligned_events.push(event),
        Chip::StoreConditional => record.store_conditional_events.push(event),
        _ => {},
    }
    proof {
        assert(record.ledger().memory =~= before.memory.insert(chip, before.memory[chip].push(event)));
        assert(record.ledger() =~= (Ledger {
            memory: before.memory.insert(chip, before.memory[chip].push(event)),
            ..before
        }));
    }
}

/// Records an event of a chip.
fn note_jump(record: &mut ExecutionRecord, chip: Chip, event: JumpEvent)
    requires
        chip.family() == Family::Jump,
        old(record).precompile_events.wf(),
    ensures
        final(record).precompile_events.wf(),
        final(record).same_beside_ledger(old(record)),
        final(record).ledger() == (Ledger {
            jump: old(record).ledger().jump.insert(chip, old(record).ledger().jump[chip].push(event)),
            ..old(record).ledger()
        }),
{
    let ghost before = record.ledger();
    match chip {
        Chip::Jump => record.jump_events.push(event),
        Chip::Jumpi => record.jumpi_events.push(event),
        Chip::JumpDirect => record.jumpdirect_events.push(event),
        _ => {},
    }
    proof {
        assert(record.ledger().jump =~= before.jump.insert(chip, before.jump[chip].push(event)));
        assert(record.ledger() =~= (Ledger {
            jump: before.jump.insert(chip, before.jump[chip].push(event)),
            ..before
        }));
    }
}

/// Records an event of a chip.
fn note_misc(record: &mut ExecutionRecord, chip: Chip, event: MiscEvent)
    requires
        chip.family() == Family::Misc,
        old(record).precompile_events.wf(),
    ensures
        final(record).precompile_events.wf(),
        final(record).same_beside_ledger(old(record)),
        final(record).ledger() == (Ledger {
            misc: old(record).ledger().misc.insert(chip, old(record).ledger().misc[chip].push(event)),
            ..old(record).ledger()
        }),
{
    let ghost before = record.ledger();
    match chip {
        Chip::Sext => record.sext_events.push(event),
        Chip::Ins => record.ins_events.push(event),
        Chip::Ext => record.ext_events.push(event),
        Chip::MaddSub => record.maddsub_events.push(event),
        Chip::Teq => record.teq_events.push(event),
        _ => {},
    }
    proof {
        assert(record.ledger().misc =~= before.misc.insert(chip, before.misc[chip].push(event)));
        assert(record.ledger() =~= (Ledger {
            misc: before.misc.insert(chip, before.misc[chip].push(event)),
            ..before
        }));
    }
}

/// Records what the clock and the processor did.
fn note_cpu(record: &mut ExecutionRecord, r: &Retired)
    requires
        old(record).precompile_events.wf(),
        r.prev_clk <= r.clk,
    ensures
        final(record).precompile_events.wf(),
        final(record).same_beside_ledger(old(record)),
        final(record).ledger() == old(record).ledger().with_cpu(*r),
{
    let ghost before = record.ledger();
    if record.first_instruction_pc.is_none() {
        record.first_instruction_pc = Some(r.pc);
    }
    if record.first_instruction_clk.is_none() {
        record.first_instruction_clk = Some(r.clk);
    }
    record.last_next_pc = r.next_pc;
    record.last_exit_code = 0;
    record.last_instruction_clk = r.clk;
    record.last_timestamp = r.end_clk;
    record.cpu_events.push(
        CpuEvent {
            clk: r.clk,
            pc: r.pc,
            next_pc: r.next_pc,
            next_next_pc: r.next_next_pc,
            exit_code: 0,
        },
    );
    if r.clk != r.prev_clk {
        record.bump_clk_high_events.push(
            BumpClkHighEvent {
                prev_clk: r.prev_clk,
                increment: r.clk - r.prev_clk,
                pc: r.pc,
                next_pc: r.next_pc,
            },
        );
    }
    proof {
        assert(record.ledger() =~= before.with_cpu(*r));
    }
}

/// Records a branch.
fn note_branch(record: &mut ExecutionRecord, event: BranchEvent)
    requires
        old(record).precompile_events.wf(),
    ensures
        final(record).precompile_events.wf(),
        final(record).same_beside_ledger(old(record)),
        final(record).ledger() == (Ledger {
            branch: old(record).ledger().branch.push(event),
            ..old(record).ledger()
        }),
{
    let ghost before = record.ledger();
    record.branch_events.push(event);
    proof {
        assert(record.ledger() =~= (Ledger { branch: before.branch.push(event), ..before }));
    }
}

/// Records a conditional move.
fn note_movcond(record: &mut ExecutionRecord, event: MovCondEvent)
    requires
        old(record).precompile_events.wf(),
    ensures
        final(record).precompile_events.wf(),
        final(record).same_beside_ledger(old(record)),
        final(record).ledger() == (Ledger {
            movcond: old(record).ledger().movcond.push(event),
            ..old(record).ledger()
        }),
{
    let ghost before = record.ledger();
    record.movcond_events.push(event);
    proof {
        assert(record.ledger() =~= (Ledger { movcond: before.movcond.push(event), ..before }));
    }
}

/// Whether a system call runs a precompiled operation.
pub fn is_precompiled(code: SyscallCode) -> (r: bool)
    ensures
        r == precompiled(code),
{
    code == SyscallCode::SHA_EXTEND || code == SyscallCode::SHA_COMPRESS || code
        == SyscallCode::KECCAK_SPONGE || Precompile::of_code(code).is_some()
}

/// The little-endian bytes of words.
fn bytes_of(words: &Vec<u32>) -> (r: Vec<u8>)
    requires
        words@.len() <= 0xffff,
    ensures
        r@ == bytes_of_words(words@),
{
    let mut bytes: Vec<u8> = Vec::new();
    let mut k: usize = 0;
    while k < 4 * words.len()
        invariant
            k <= 4 * words@.len(),
            words@.len() <= 0xffff,
            bytes@ =~= bytes_of_words(words@).take(k as int),
        decreases 4 * words@.len() - k,
    {
        let word: u32 = words[k / 4];
        let shift: u32 = 8 * ((k % 4) as u32);
        bytes.push(((word >> shift) & 0xff) as u8);
        k = k + 1;
    }
    bytes
}

/// The event of a precompiled operation.
fn call_event(r: &Retired, code: SyscallCode, first: Vec<u32>, second: Vec<u32>) -> (event:
    PrecompileEvent)
    requires
        code == r.code(),
        r.instruction.opcode is SYSCALL,
        r.has_operands(Operands { first: first@, second: second@ }),
    ensures
        call_of(event) == r.call(Operands { first: first@, second: second@ }),
        listed(event) == 0,
{
    match Precompile::of_code(code) {
        Some(Precompile::EcAdd(_)) | Some(Precompile::EdAdd) => PrecompileEvent::EcAdd(
            EllipticCurveAddEvent {
                shard: 0,
                clk: r.clk,
                p_ptr: r.b,
                p: first,
                q_ptr: r.c,
                q: second,
                p_memory_records: Vec::new(),
                q_memory_records: Vec::new(),
                local_mem_access: Vec::new(),
            },
        ),
        Some(Precompile::EcDouble(_)) => PrecompileEvent::EcDouble(
            EllipticCurveDoubleEvent {
                shard: 0,
                clk: r.clk,
                p_ptr: r.b,
                p: first,
                p_memory_records: Vec::new(),
                local_mem_access: Vec::new(),
            },
        ),
        Some(Precompile::EcDecompress(f)) => {
            let y: Vec<u8> = match Precompile::EcDecompress(f).apply_decompress(&first, r.c) {
                Ok(y) => bytes_of(&y),
                Err(_) => Vec::new(),
            };
            PrecompileEvent::EcDecompress(
                EllipticCurveDecompressEvent {
                    shard: 0,
                    clk: r.clk,
                    ptr: r.b,
                    sign_bit: r.c != 0,
                    x_bytes: bytes_of(&first),
                    decompressed_y_bytes: y,
                    x_memory_records: Vec::new(),
                    y_memory_records: Vec::new(),
                    local_mem_access: Vec::new(),
                },
            )
        },
        _ => if code == SyscallCode::KECCAK_SPONGE {
            PrecompileEvent::KeccakSponge(
                KeccakSpongeEvent {
                    clk: r.clk,
                    input_addr: r.b,
                    output_addr: r.c,
                    input_len_u32s: r.word.value,
                    local_mem_access: Vec::new(),
                },
            )
        } else {
            PrecompileEvent::Other(Vec::new())
        },
    }
}

/// Records a system call, and the precompiled operation that it runs.
fn note_syscall(record: &mut ExecutionRecord, r: &Retired, first: Vec<u32>, second: Vec<u32>)
    requires
        old(record).precompile_events.wf(),
        r.instruction.opcode is SYSCALL,
        r.has_operands(Operands { first: first@, second: second@ }),
    ensures
        final(record).precompile_events.wf(),
        final(record).same_beside_ledger(old(record)),
        final(record).ledger() == old(record).ledger().with_syscall(
            *r,
            Operands { first: first@, second: second@ },
        ),
{
    let ghost operands = Operands { first: first@, second: second@ };
    let ghost before = record.ledger();
    let ghost was = record.precompile_events;
    let event = SyscallEvent {
        pc: r.pc,
        next_pc: r.next_pc,
        shard: 0,
        clk: r.clk,
        a_record: MemoryWriteRecord::default(),
        a_record_is_real: false,
        b_record: None,
        c_record: None,
        syscall_id: r.id,
        arg1: r.b,
        arg2: r.c,
    };
    record.syscall_events.push(event);
    let code: SyscallCode = SyscallCode::from_u32(r.id);
    if is_precompiled(code) {
        let call: PrecompileEvent = call_event(r, code, first, second);
        record.precompile_events.add_event(code, event, call);
        proof {
            let f = |e: (SyscallEvent, PrecompileEvent)| (e.0, call_of(e.1), listed(e.1));
            let now = record.precompile_events;
            assert(now.events(code).map_values(f) =~= was.events(code).map_values(f).push(
                (event, r.call(operands), 0nat),
            ));
            assert(record.ledger().calls =~= before.with_syscall(*r, operands).calls) by {
                assert forall|c: SyscallCode| record.ledger().calls[c] == before.with_syscall(
                    *r,
                    operands,
                ).calls[c] by {
                    if c != code {
                        assert(now.events(c) == was.events(c));
                    }
                }
            }
        }
    }
    proof {
        assert(record.ledger() =~= before.with_syscall(*r, operands));
    }
}

/// Records the event of a retired instruction that belongs to its chip.
fn note_chip(
    record: &mut ExecutionRecord,
    chip: Chip,
    r: &Retired,
    first: Vec<u32>,
    second: Vec<u32>,
)
    requires
        Chip::of(r.instruction) == Some(chip),
        r.has_operands(Operands { first: first@, second: second@ }),
        old(record).precompile_events.wf(),
        r.instruction.opcode.class() == OpClass::Store ==> !vm::store_misaligned(
            r.instruction.opcode,
            r.address(),
        ),
    ensures
        final(record).precompile_events.wf(),
        final(record).same_beside_ledger(old(record)),
        final(record).ledger() == old(record).ledger().with_chip(
            chip,
            *r,
            Operands { first: first@, second: second@ },
        ),
{
    let opcode: Opcode = r.instruction.opcode;
    match chip.event_family() {
        Family::Alu => note_alu(
            record,
            chip,
            AluEvent {
                clk: r.clk,
                pc: r.pc,
                next_pc: r.next_pc,
                opcode,
                hi: r.hi,
                a: r.a,
                b: r.b,
                c: r.c,
                a_record: None,
                b_record: None,
                c_record: None,
            },
        ),
        Family::Comp => note_comp(
            record,
            chip,
            CompAluEvent {
                clk: r.clk,
                pc: r.pc,
                next_pc: r.next_pc,
                opcode,
                hi: r.hi,
                a: r.a,
                b: r.b,
                c: r.c,
                hi_record: MemoryWriteRecord::default(),
                hi_record_is_real: false,
                a_record: None,
                b_record: None,
                c_record: None,
            },
        ),
        Family::Memory => {
            let mem_access: MemoryRecordEnum = access_of(r);
            note_memory(
                record,
                chip,
                MemInstrEvent::new(
                    r.clk,
                    r.pc,
                    r.next_pc,
                    opcode,
                    r.a,
                    r.b,
                    r.c,
                    mem_access,
                    r.prev_a,
                ),
            )
        },
        Family::Branch => note_branch(
            record,
            BranchEvent::new(r.clk, r.pc, r.next_pc, r.next_next_pc, opcode, r.a, r.b, r.c),
        ),
        Family::Jump => note_jump(
            record,
            chip,
            JumpEvent::new(r.clk, r.pc, r.next_pc, r.next_next_pc, opcode, r.a, r.b, r.c),
        ),
        Family::MovCond => note_movcond(
            record,
            MovCondEvent::new(r.clk, r.pc, r.next_pc, opcode, r.a, r.b, r.c, r.prev_a),
        ),
        Family::Misc => note_misc(
            record,
            chip,
            MiscEvent::new(
                r.clk,
                r.pc,
                r.next_pc,
                opcode,
                r.a,
                r.b,
                r.c,
                r.prev_a,
                MemoryWriteRecord::default(),
            ),
        ),
        Family::Syscall => note_syscall(record, r, first, second),
    }
}

/// The access of memory by a load or store.
fn access_of(r: &Retired) -> (access: MemoryRecordEnum)
    requires
        r.instruction.opcode.class() == OpClass::Store ==> !vm::store_misaligned(
            r.instruction.opcode,
            r.address(),
        ),
    ensures
        access == r.mem_access(),
{
    let opcode: Opcode = r.instruction.opcode;
    if opcode.op_class() == OpClass::Store {
        let value: u32 = match vm::store_value(opcode, r.b.wrapping_add(r.c), r.word.value, r.prev_a) {
            Ok(value) => value,
            Err(_) => 0,
        };
        MemoryRecordEnum::Write(
            MemoryWriteRecord::new(value, r.clk, r.word.value, r.word.clk),
        )
    } else {
        MemoryRecordEnum::Read(MemoryReadRecord::new(r.word.value, r.clk, r.word.clk))
    }
}

/// Records a retired instruction and the operands that it found in memory.
pub fn note(record: &mut ExecutionRecord, r: &Retired, first: Vec<u32>, second: Vec<u32>)
    requires
        r.has_operands(Operands { first: first@, second: second@ }),
        old(record).precompile_events.wf(),
        r.prev_clk <= r.clk,
        r.instruction.opcode.class() == OpClass::Store ==> !vm::store_misaligned(
            r.instruction.opcode,
            r.address(),
        ),
    ensures
        final(record).precompile_events.wf(),
        final(record).same_beside_ledger(old(record)),
        final(record).ledger() == old(record).ledger().noting(
            *r,
            Operands { first: first@, second: second@ },
        ),
{
    note_cpu(record, r);
    if let Some(chip) = Chip::of_instruction(&r.instruction) {
        note_chip(record, chip, r, first, second);
    }
}

} // verus!
