//! What the recorded events say agrees with the instructions that they record.
//!
//! Each predicate speaks of the fields of one event and of the instruction at its address. A trace
//! of a run holds events that meet them, whatever the program does.
use vstd::prelude::*;

use crate::chips::{self, Chip, Family, Ledger, Retired};
use crate::events::{
    AluEvent, BranchEvent, CompAluEvent, JumpEvent, MemInstrEvent, MemoryRecordEnum, MiscEvent,
    MovCondEvent,
};
use crate::instruction::{self, Instruction};
use crate::laws;
use crate::machine::Cpu;
use crate::opcode::{OpClass, Opcode};
use crate::program::Program;
use crate::register::Register;
use crate::vm;

verus! {

/// What a result leaves in its destination: the zero register takes nothing.
pub open spec fn kept(op_a: u8, value: u32) -> u32 {
    if op_a == 0 {
        0
    } else {
        value
    }
}

/// The event of a multiplication or division: the results are those of the operands.
pub open spec fn comp_agrees(e: CompAluEvent, program: Program) -> bool {
    let i = program.at(e.pc);
    &&& e.opcode == i.opcode
    &&& (e.a, e.hi) == vm::alu_result(e.opcode, e.b, e.c)
    &&& i.imm_c ==> e.c == i.op_c
    &&& i.imm_c && i.imm_b ==> e.b == i.op_b
    &&& match e.opcode {
        Opcode::DIVU => e.c != 0 && e.b == e.a * e.c + e.hi && e.hi < e.c,
        Opcode::MODU => e.c != 0 && e.a < e.c,
        Opcode::DIV | Opcode::MOD => e.c != 0,
        Opcode::MULTU => e.a + e.hi * 0x1_0000_0000 == e.b * e.c,
        _ => true,
    }
}

/// The event of an arithmetic or logic instruction: the result is that of the operands.
pub open spec fn alu_agrees(e: AluEvent, program: Program) -> bool {
    let i = program.at(e.pc);
    &&& e.opcode == i.opcode
    &&& e.hi == 0
    &&& e.a == kept(i.op_a, vm::alu_result(e.opcode, e.b, e.c).0)
    &&& e.opcode.class() == OpClass::Alu && i.imm_c ==> e.c == i.op_c
    &&& e.opcode.class() == OpClass::Alu && i.imm_c && i.imm_b ==> e.b == i.op_b
}

/// The event of a load or store: the access is the one at the sum of the operands, at the time of
/// the event, and what it moved is what the opcode moves.
pub open spec fn memory_agrees(e: MemInstrEvent, program: Program) -> bool {
    let i = program.at(e.pc);
    let addr = vm::word(e.b + e.c);
    &&& e.opcode == i.opcode
    &&& e.c == i.op_c
    &&& match e.mem_access {
        MemoryRecordEnum::Read(access) => {
            &&& e.opcode.class() == OpClass::Load
            &&& !vm::load_misaligned(e.opcode, addr)
            &&& access.timestamp == e.clk
            &&& e.a == kept(i.op_a, vm::loaded(e.opcode, addr, access.value, e.prev_a_val))
        },
        MemoryRecordEnum::Write(access) => {
            &&& e.opcode.class() == OpClass::Store
            &&& !vm::store_misaligned(e.opcode, addr)
            &&& access.timestamp == e.clk
            &&& access.value == vm::stored(e.opcode, addr, access.prev_value, e.prev_a_val)
            &&& e.a == if e.opcode is SC {
                kept(i.op_a, 1)
            } else {
                e.prev_a_val
            }
        },
    }
}

/// The event of a branch: control goes to the target behind the delay slot exactly if the operands
/// make the branch be taken.
pub open spec fn branch_agrees(e: BranchEvent, program: Program) -> bool {
    let i = program.at(e.pc);
    &&& e.opcode == i.opcode
    &&& e.c == i.op_c
    &&& e.next_next_pc != 0
    &&& e.next_next_pc == if vm::takes_branch(e.opcode, e.a, e.b) {
        vm::word(e.next_pc + e.c)
    } else {
        vm::word(e.next_pc + 4)
    }
}

/// The event of a jump: the return address lies behind the delay slot, and control goes to the
/// operand, or to the operand's distance from the delay slot.
pub open spec fn jump_agrees(e: JumpEvent, program: Program) -> bool {
    let i = program.at(e.pc);
    &&& e.opcode == i.opcode
    &&& e.next_next_pc != 0
    &&& e.a == kept(i.op_a, vm::word(e.next_pc + 4))
    &&& !(e.opcode is Jump) ==> e.b == i.op_b
    &&& e.next_next_pc == if e.opcode is JumpDirect {
        vm::word(e.next_pc + e.b)
    } else {
        e.b
    }
}

/// The event of a conditional move or of a byte swap.
pub open spec fn movcond_agrees(e: MovCondEvent, program: Program) -> bool {
    let i = program.at(e.pc);
    &&& e.opcode == i.opcode
    &&& i.op_a != 0
    &&& match e.opcode {
        Opcode::MEQ => e.a == if e.c == 0 {
            e.b
        } else {
            e.prev_a
        },
        Opcode::MNE => e.a == if e.c != 0 {
            e.b
        } else {
            e.prev_a
        },
        _ => e.opcode is WSBH && e.a == vm::swap_halves_bytes(e.b),
    }
}

/// The event of a bit-field, trap or multiply-accumulate instruction.
pub open spec fn misc_agrees(e: MiscEvent, program: Program) -> bool {
    let i = program.at(e.pc);
    &&& e.opcode == i.opcode
    &&& match e.opcode {
        Opcode::SEXT => e.c == i.op_c && e.a == vm::sext_result(e.b, e.c),
        Opcode::EXT => e.c == i.op_c && !vm::extract_traps(e.c) && e.a == vm::extract(e.b, e.c),
        Opcode::INS => e.c == i.op_c && !vm::insert_traps(e.c) && e.a == vm::inserted(
            e.prev_a,
            e.b,
            e.c,
        ),
        Opcode::TEQ => e.prev_a != e.b && e.a == e.prev_a,
        Opcode::MADDU | Opcode::MADD => i.op_a == Register::LO.number() ==> e.a == vm::word(
            e.prev_a + e.b * e.c,
        ),
        _ => i.op_a == Register::LO.number() ==> e.a == vm::word(e.prev_a - e.b * e.c),
    }
}

impl Ledger {
    /// Every event of the ledger agrees with its instruction.
    pub open spec fn agrees(self, program: Program) -> bool {
        &&& forall|chip: Chip, j: int|
            0 <= j < self.comp[chip].len() ==> comp_agrees(#[trigger] self.comp[chip][j], program)
        &&& forall|chip: Chip, j: int|
            0 <= j < self.alu[chip].len() ==> alu_agrees(#[trigger] self.alu[chip][j], program)
        &&& forall|chip: Chip, j: int|
            0 <= j < self.memory[chip].len() ==> memory_agrees(
                #[trigger] self.memory[chip][j],
                program,
            )
        &&& forall|j: int|
            0 <= j < self.branch.len() ==> branch_agrees(#[trigger] self.branch[j], program)
        &&& forall|chip: Chip, j: int|
            0 <= j < self.jump[chip].len() ==> jump_agrees(#[trigger] self.jump[chip][j], program)
        &&& forall|j: int|
            0 <= j < self.movcond.len() ==> movcond_agrees(#[trigger] self.movcond[j], program)
        &&& forall|chip: Chip, j: int|
            0 <= j < self.misc[chip].len() ==> misc_agrees(#[trigger] self.misc[chip][j], program)
    }
}

/// The machine is at an instruction of the program that succeeds.
pub open spec fn retires(before: Cpu, program: Program, max_syscall_cycles: u32) -> bool {
    &&& laws::registers_ok(before)
    &&& program.wf()
    &&& program.contains_pc(before.pc)
    &&& before.step(program, max_syscall_cycles).1 is Ok
}

/// What is recorded of the instruction that the machine is at.
pub open spec fn noted(before: Cpu, program: Program, max_syscall_cycles: u32) -> Retired {
    chips::retired(
        before,
        before.step(program, max_syscall_cycles).0,
        program.at(before.pc),
        max_syscall_cycles,
    )
}

proof fn lemma_instruction(before: Cpu, program: Program)
    requires
        program.wf(),
        program.contains_pc(before.pc),
    ensures
        program.at(before.pc).wf(),
{
    let i = program.at(before.pc);
    assert(i == program.instructions@[(before.pc.wrapping_sub(program.pc_base) / 4) as int]);
}

/// A multiplication or division, or an arithmetic or logic instruction, is recorded with the
/// values of its operands and with its result.
pub proof fn arithmetic_is_recorded_as_it_is(
    before: Cpu,
    program: Program,
    max_syscall_cycles: u32,
)
    requires
        retires(before, program, max_syscall_cycles),
        program.at(before.pc).opcode.class() == OpClass::Alu,
    ensures
        ({
            let r = noted(before, program, max_syscall_cycles);
            let i = program.at(before.pc);
            let e = r.comp_event();
            let f = r.alu_event();
            &&& Chip::of(i) matches Some(chip) && (chip.family() == Family::Alu || chip.family()
                == Family::Comp)
            &&& Chip::of(i)->Some_0.family() == Family::Comp ==> comp_agrees(e, program)
            &&& Chip::of(i)->Some_0.family() == Family::Alu ==> alu_agrees(f, program)
            &&& e.pc == before.pc && f.pc == before.pc
            &&& e.b == f.b && e.c == f.c
            &&& !i.imm_c ==> f.b == before.reg(instruction::reg_of(i.op_b)) && f.c == before.reg(
                instruction::reg_of(i.op_c),
            )
            &&& i.imm_c && !i.imm_b ==> f.b == before.reg(instruction::reg_of(i.op_b)) && f.c
                == i.op_c
            &&& i.imm_c && i.imm_b ==> f.b == i.op_b && f.c == i.op_c
        }),
{
    lemma_instruction(before, program);
    reveal(Cpu::operate);
    let r = noted(before, program, max_syscall_cycles);
    let i = program.at(before.pc);
    let (b, c) = (r.b, r.c);
    if c != 0 {
        assert(b == (b / c) * c + b % c && b % c < c) by (nonlinear_arith)
            requires
                c > 0,
        ;
    }
    assert(0 <= b * c <= 0xffff_ffff * 0xffff_ffff) by (nonlinear_arith);
}

/// A load or store is recorded with the values of its operands, the old value of its register and
/// the word that it found.
pub proof fn an_access_is_recorded_as_it_is(before: Cpu, program: Program, max_syscall_cycles: u32)
    requires
        retires(before, program, max_syscall_cycles),
        program.at(before.pc).opcode.class() == OpClass::Load || program.at(
            before.pc,
        ).opcode.class() == OpClass::Store,
    ensures
        ({
            let e = noted(before, program, max_syscall_cycles).memory_event();
            let i = program.at(before.pc);
            let addr = vm::word(e.b + e.c);
            let word = before.bus.entry((addr - addr % 4) as u32);
            &&& Chip::of(i) matches Some(chip) && chip.family() == Family::Memory
            &&& memory_agrees(e, program)
            &&& e.pc == before.pc
            &&& e.b == before.reg(instruction::reg_of(i.op_b))
            &&& e.prev_a_val == before.reg(i.op_a)
            &&& match e.mem_access {
                MemoryRecordEnum::Read(access) => access.value == word.value
                    && access.prev_timestamp == word.clk,
                MemoryRecordEnum::Write(access) => access.prev_value == word.value
                    && access.prev_timestamp == word.clk,
            }
        }),
{
    lemma_instruction(before, program);
    reveal(Cpu::operate);
}

/// A branch, jump or conditional move is recorded with the values of its operands.
pub proof fn control_is_recorded_as_it_is(before: Cpu, program: Program, max_syscall_cycles: u32)
    requires
        retires(before, program, max_syscall_cycles),
        program.at(before.pc).opcode.class() == OpClass::Branch || program.at(
            before.pc,
        ).opcode.class() == OpClass::Jump,
    ensures
        ({
            let r = noted(before, program, max_syscall_cycles);
            let i = program.at(before.pc);
            &&& i.opcode.class() == OpClass::Branch ==> {
                &&& Chip::of(i) matches Some(chip) && chip.family() == Family::Branch
                &&& branch_agrees(r.branch_event(), program)
                &&& r.branch_event().pc == before.pc
                &&& r.branch_event().next_pc == before.next_pc
                &&& r.branch_event().a == before.reg(i.op_a)
                &&& i.opcode is BEQ || i.opcode is BNE ==> r.branch_event().b == before.reg(
                    instruction::reg_of(i.op_b),
                )
            }
            &&& i.opcode.class() == OpClass::Jump ==> {
                &&& Chip::of(i) matches Some(chip) && chip.family() == Family::Jump
                &&& jump_agrees(r.jump_event(), program)
                &&& r.jump_event().pc == before.pc
                &&& r.jump_event().next_pc == before.next_pc
                &&& i.opcode is Jump ==> r.jump_event().b == before.reg(
                    instruction::reg_of(i.op_b),
                )
            }
        }),
{
    lemma_instruction(before, program);
    reveal(Cpu::operate);
}

proof fn lemma_low_accumulator(b: u32, c: u32, lo: u32, hi: u32)
    ensures
        vm::madd_result(Opcode::MADDU, b, c, lo, hi).0 == vm::word(lo + b * c),
        vm::madd_result(Opcode::MADD, b, c, lo, hi).0 == vm::word(lo + b * c),
        vm::madd_result(Opcode::MSUBU, b, c, lo, hi).0 == vm::word(lo - b * c),
        vm::madd_result(Opcode::MSUB, b, c, lo, hi).0 == vm::word(lo - b * c),
{
    let m = 0x1_0000_0000int;
    let p = b * c;
    let q = vm::signed(b) * vm::signed(c);
    let db: int = if b < 0x8000_0000 {
        0
    } else {
        1
    };
    let dc: int = if c < 0x8000_0000 {
        0
    } else {
        1
    };
    let k = -(db * c) - (dc * b) + m * (db * dc);
    assert(q == p + m * k) by (nonlinear_arith)
        requires
            m == 0x1_0000_0000,
            p == b * c,
            q == (b - db * m) * (c - dc * m),
            k == -(db * c) - (dc * b) + m * (db * dc),
    ;
    assert((hi * m + lo + p) % m == (lo + p) % m);
    assert((hi * m + lo - p) % m == (lo - p) % m);
    vstd::arithmetic::div_mod::lemma_mod_multiples_vanish(hi + k, lo + p, m);
    assert(m * (hi + k) + (lo + p) == hi * m + lo + q) by (nonlinear_arith)
        requires
            q == p + m * k,
    ;
    vstd::arithmetic::div_mod::lemma_mod_multiples_vanish(hi - k, lo - p, m);
    assert(m * (hi - k) + (lo - p) == hi * m + lo - q) by (nonlinear_arith)
        requires
            q == p + m * k,
    ;
}

/// A conditional move, a bit-field, trap or multiply-accumulate instruction is recorded with the
/// values of its operands, the old value of its register and its result.
pub proof fn a_move_is_recorded_as_it_is(before: Cpu, program: Program, max_syscall_cycles: u32)
    requires
        retires(before, program, max_syscall_cycles),
        program.at(before.pc).opcode.class() == OpClass::MovCond || program.at(
            before.pc,
        ).opcode.class() == OpClass::Misc,
    ensures
        ({
            let r = noted(before, program, max_syscall_cycles);
            let i = program.at(before.pc);
            &&& Chip::of(i) matches Some(chip) && {
                ||| chip.family() == Family::Alu && alu_agrees(r.alu_event(), program) && i.op_a
                    == 0 && r.alu_event().a == 0
                ||| chip.family() == Family::MovCond && movcond_agrees(r.movcond_event(), program)
                ||| chip.family() == Family::Misc && misc_agrees(r.misc_event(), program)
            }
            &&& r.movcond_event().pc == before.pc && r.misc_event().pc == before.pc
            &&& r.movcond_event().b == before.reg(instruction::reg_of(i.op_b))
            &&& r.misc_event().b == before.reg(instruction::reg_of(i.op_b))
            &&& r.movcond_event().prev_a == before.reg(i.op_a)
            &&& r.misc_event().prev_a == before.reg(i.op_a)
            &&& i.opcode is MEQ || i.opcode is MNE ==> r.movcond_event().c == before.reg(
                instruction::reg_of(i.op_c),
            )
            &&& i.opcode is MADD || i.opcode is MADDU || i.opcode is MSUB || i.opcode is MSUBU ==> r.misc_event().c == before.reg(
                instruction::reg_of(i.op_c),
            )
        }),
{
    lemma_instruction(before, program);
    reveal(Cpu::operate);
    let r = noted(before, program, max_syscall_cycles);
    lemma_low_accumulator(
        r.b,
        r.c,
        before.reg(Register::LO.number()),
        before.reg(Register::HI.number()),
    );
}

/// A system call is recorded with the number and the arguments that its registers hold.
pub proof fn a_call_is_recorded_as_it_is(before: Cpu, program: Program, max_syscall_cycles: u32)
    requires
        retires(before, program, max_syscall_cycles),
        program.at(before.pc).opcode is SYSCALL,
    ensures
        ({
            let r = noted(before, program, max_syscall_cycles);
            let e = r.syscall_event();
            &&& Chip::of(program.at(before.pc)) == Some(Chip::Syscall)
            &&& e.pc == before.pc
            &&& e.syscall_id == before.reg(Register::V0.number())
            &&& e.arg1 == before.reg(Register::A0.number())
            &&& e.arg2 == before.reg(Register::A1.number())
        }),
{
}

proof fn lemma_noting(ledger: Ledger, before: Cpu, program: Program, max_syscall_cycles: u32)
    requires
        retires(before, program, max_syscall_cycles),
        ledger.agrees(program),
    ensures
        ledger.noting(
            noted(before, program, max_syscall_cycles),
            chips::operands(before, program.at(before.pc)),
        ).agrees(program),
{
    let r = noted(before, program, max_syscall_cycles);
    let i = program.at(before.pc);
    match i.opcode.class() {
        OpClass::Alu => {
            arithmetic_is_recorded_as_it_is(before, program, max_syscall_cycles);
        },
        OpClass::Load | OpClass::Store => {
            an_access_is_recorded_as_it_is(before, program, max_syscall_cycles);
        },
        OpClass::Branch | OpClass::Jump => {
            control_is_recorded_as_it_is(before, program, max_syscall_cycles);
        },
        OpClass::MovCond | OpClass::Misc => {
            a_move_is_recorded_as_it_is(before, program, max_syscall_cycles);
        },
        OpClass::Syscall | OpClass::Unimplemented => {},
    }
    let l = ledger.noting(r, chips::operands(before, i));
    assert forall|chip: Chip, j: int| 0 <= j < l.comp[chip].len() implies comp_agrees(
        #[trigger] l.comp[chip][j],
        program,
    ) by {
        if j < ledger.comp[chip].len() {
            assert(l.comp[chip][j] == ledger.comp[chip][j]);
        }
    }
    assert forall|chip: Chip, j: int| 0 <= j < l.alu[chip].len() implies alu_agrees(
        #[trigger] l.alu[chip][j],
        program,
    ) by {
        if j < ledger.alu[chip].len() {
            assert(l.alu[chip][j] == ledger.alu[chip][j]);
        }
    }
    assert forall|chip: Chip, j: int| 0 <= j < l.memory[chip].len() implies memory_agrees(
        #[trigger] l.memory[chip][j],
        program,
    ) by {
        if j < ledger.memory[chip].len() {
            assert(l.memory[chip][j] == ledger.memory[chip][j]);
        }
    }
    assert forall|chip: Chip, j: int| 0 <= j < l.jump[chip].len() implies jump_agrees(
        #[trigger] l.jump[chip][j],
        program,
    ) by {
        if j < ledger.jump[chip].len() {
            assert(l.jump[chip][j] == ledger.jump[chip][j]);
        }
    }
    assert forall|chip: Chip, j: int| 0 <= j < l.misc[chip].len() implies misc_agrees(
        #[trigger] l.misc[chip][j],
        program,
    ) by {
        if j < ledger.misc[chip].len() {
            assert(l.misc[chip][j] == ledger.misc[chip][j]);
        }
    }
}

proof fn lemma_registers(start: Cpu, program: Program, max_syscall_cycles: u32, n: nat)
    requires
        laws::registers_ok(start),
        program.wf(),
        forall|k: nat|
            k < n ==> (#[trigger] start.steps(program, max_syscall_cycles, k) matches Some(c)
                && program.contains_pc(c.pc)),
    ensures
        start.steps(program, max_syscall_cycles, n) matches Some(c) ==> laws::registers_ok(c),
    decreases n,
{
    if n > 0 {
        let m = (n - 1) as nat;
        lemma_registers(start, program, max_syscall_cycles, m);
        if let Some(c) = start.steps(program, max_syscall_cycles, m) {
            laws::zero_register_stays_zero(c, program, max_syscall_cycles);
        }
    }
}

/// Every event of a trace agrees with its instruction: of each multiplication and division the
/// results are those of the event's own operands, of each load and store the access moved what the
/// opcode moves, and so on.
pub proof fn every_traced_event_agrees(
    start: Cpu,
    program: Program,
    max_syscall_cycles: u32,
    n: nat,
)
    requires
        laws::registers_ok(start),
        program.wf(),
        start.steps(program, max_syscall_cycles, n) is Some,
        forall|k: nat|
            k < n ==> (#[trigger] start.steps(program, max_syscall_cycles, k) matches Some(c)
                && program.contains_pc(c.pc)),
    ensures
        chips::traced(Ledger::empty(), start, program, max_syscall_cycles, n).agrees(program),
    decreases n,
{
    if n > 0 {
        let m = (n - 1) as nat;
        every_traced_event_agrees(start, program, max_syscall_cycles, m);
        lemma_registers(start, program, max_syscall_cycles, m);
        let before = start.steps(program, max_syscall_cycles, m)->Some_0;
        lemma_noting(
            chips::traced(Ledger::empty(), start, program, max_syscall_cycles, m),
            before,
            program,
            max_syscall_cycles,
        );
    }
}

/// A jump of the clock to the next window is recorded where it happens and nowhere else, with the
/// clock that it leaves and the one that it reaches.
pub proof fn a_jump_of_the_clock_is_recorded(
    ledger: Ledger,
    before: Cpu,
    program: Program,
    max_syscall_cycles: u32,
)
    requires
        retires(before, program, max_syscall_cycles),
    ensures
        ({
            let noting = ledger.noting(
                noted(before, program, max_syscall_cycles),
                chips::operands(before, program.at(before.pc)),
            );
            let reached = vm::bumped_clk(before.clk, max_syscall_cycles);
            &&& reached == before.clk ==> noting.bumps == ledger.bumps
            &&& reached != before.clk ==> {
                &&& noting.bumps.len() == ledger.bumps.len() + 1
                &&& noting.bumps.take(ledger.bumps.len() as int) == ledger.bumps
                &&& noting.bumps.last().prev_clk == before.clk
                &&& noting.bumps.last().prev_clk + noting.bumps.last().increment == reached
                &&& noting.bumps.last().pc == before.pc
            }
        }),
{
    let noting = ledger.noting(
        noted(before, program, max_syscall_cycles),
        chips::operands(before, program.at(before.pc)),
    );
    if vm::bumped_clk(before.clk, max_syscall_cycles) != before.clk {
        assert(noting.bumps.take(ledger.bumps.len() as int) =~= ledger.bumps);
    }
}

/// The events of the processor follow each other: of two instructions in a row outside
/// unconstrained blocks the second is where the first goes on, and its clock is past the first.
pub proof fn processor_events_follow_each_other(
    start: Cpu,
    program: Program,
    max_syscall_cycles: u32,
    n: nat,
)
    requires
        laws::registers_ok(start),
        program.wf(),
        start.steps(program, max_syscall_cycles, n + 2) is Some,
        start.steps(program, max_syscall_cycles, n)->Some_0.fork is None,
        start.steps(program, max_syscall_cycles, n + 1)->Some_0.fork is None,
        start.steps(program, max_syscall_cycles, n)->Some_0.opcodes.len()
            == crate::opcode::NUM_OPCODES,
        forall|k: nat|
            k < n + 2 ==> (#[trigger] start.steps(program, max_syscall_cycles, k) matches Some(c)
                && program.contains_pc(c.pc)),
    ensures
        ({
            let cpu = chips::traced(
                Ledger::empty(),
                start,
                program,
                max_syscall_cycles,
                n + 2,
            ).cpu;
            let first = cpu[cpu.len() - 2];
            let second = cpu.last();
            &&& cpu.len() >= 2
            &&& first.next_pc == second.pc
            &&& !(program.at(second.pc).opcode is SYSCALL) ==> first.next_next_pc == second.next_pc
            &&& first.clk + 5 <= second.clk
        }),
{
    let a = start.steps(program, max_syscall_cycles, n)->Some_0;
    let b = start.steps(program, max_syscall_cycles, n + 1)->Some_0;
    lemma_registers(start, program, max_syscall_cycles, n);
    lemma_registers(start, program, max_syscall_cycles, n + 1);
    assert(start.steps(program, max_syscall_cycles, (n + 2 - 1) as nat) == Some(b));
    assert(start.steps(program, max_syscall_cycles, (n + 1 - 1) as nat) == Some(a));
    assert(b == a.step(program, max_syscall_cycles).0);
    assert(a.step(program, max_syscall_cycles).1 is Ok);
    assert(b.step(program, max_syscall_cycles).1 is Ok);
    crate::steps::an_instruction_costs_five_ticks(a, program, max_syscall_cycles, Opcode::ADD);
    if !(program.at(b.pc).opcode is SYSCALL) {
        crate::steps::control_goes_on_in_line(b, program, max_syscall_cycles);
    }
    let before = chips::traced(Ledger::empty(), start, program, max_syscall_cycles, n);
    let one = chips::traced(Ledger::empty(), start, program, max_syscall_cycles, n + 1);
    let two = chips::traced(Ledger::empty(), start, program, max_syscall_cycles, n + 2);
    assert(one.cpu == before.cpu.push(noted(a, program, max_syscall_cycles).cpu_event()));
    assert(two.cpu == one.cpu.push(noted(b, program, max_syscall_cycles).cpu_event()));
}

} // verus!
