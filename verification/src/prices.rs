//! Laws of the estimates: how the counts of chips follow from the instructions, and how the size
//! of a shard follows from the counts.
use vstd::prelude::*;

use crate::air::{self, MipsAirId, NUM_AIRS};
use crate::chips::Chip;
use crate::cost::{self, AirCosts, AirCounts, EventInputs};
use crate::events::PrecompileEvents;
use crate::instruction::Instruction;
use crate::opcode::Opcode;
use crate::record::ExecutionRecord;
use crate::splicing::{self, Shape};
use crate::syscalls::SyscallCode;

verus! {

/// The table of a chip.
pub open spec fn air_of(chip: Chip) -> MipsAirId {
    match chip {
        Chip::Add => MipsAirId::Add,
        Chip::Addi => MipsAirId::Addi,
        Chip::AddNoop => MipsAirId::AddNoop,
        Chip::Sub => MipsAirId::Sub,
        Chip::AluX0 => MipsAirId::AluX0,
        Chip::Bitwise => MipsAirId::Bitwise,
        Chip::ShiftLeft => MipsAirId::ShiftLeft,
        Chip::Lui => MipsAirId::Lui,
        Chip::ShiftRight => MipsAirId::ShiftRight,
        Chip::Lt => MipsAirId::Lt,
        Chip::Slti => MipsAirId::Slti,
        Chip::CloClz => MipsAirId::CloClz,
        Chip::Mul => MipsAirId::Mul,
        Chip::DivRem => MipsAirId::DivRem,
        Chip::LoadWord => MipsAirId::LoadWord,
        Chip::LoadX0 => MipsAirId::LoadX0,
        Chip::LoadByte => MipsAirId::LoadByte,
        Chip::LoadHalf => MipsAirId::LoadHalf,
        Chip::LoadWordUnaligned => MipsAirId::LoadWordUnaligned,
        Chip::StoreWord => MipsAirId::StoreWord,
        Chip::StoreByte => MipsAirId::StoreByte,
        Chip::StoreHalf => MipsAirId::StoreHalf,
        Chip::StoreWordUnaligned => MipsAirId::StoreWordUnaligned,
        Chip::StoreConditional => MipsAirId::StoreConditional,
        Chip::Branch => MipsAirId::Branch,
        Chip::Jump => MipsAirId::Jump,
        Chip::Jumpi => MipsAirId::Jumpi,
        Chip::JumpDirect => MipsAirId::JumpDirect,
        Chip::MovCond => MipsAirId::MovCond,
        Chip::Sext => MipsAirId::Sext,
        Chip::Ins => MipsAirId::Ins,
        Chip::Ext => MipsAirId::Ext,
        Chip::MaddSub => MipsAirId::Maddsub,
        Chip::Teq => MipsAirId::Teq,
        Chip::Syscall => MipsAirId::SyscallInstrs,
    }
}

/// One if a condition holds.
pub open spec fn unit(b: bool) -> int {
    if b {
        1
    } else {
        0
    }
}

/// An instruction is a special form of its opcode that has a chip of its own, whatever its
/// destination.
pub open spec fn special(i: Instruction) -> bool {
    match i.opcode {
        Opcode::ADD => i.imm_c && !i.imm_b || i.imm_b && i.imm_c && i.op_a == 0 && i.op_b == 0
            && i.op_c == 0,
        Opcode::SLL => i.imm_b,
        Opcode::SLT | Opcode::SLTU => i.imm_c,
        _ => false,
    }
}

/// One if an instruction is of the opcodes in question, is no special form and drops its result in
/// the zero register.
pub open spec fn discarded(i: Instruction, is: bool) -> int {
    unit(is && i.op_a == 0 && !special(i))
}

/// The statistics after one more instruction has retired.
pub open spec fn one_more(a: EventInputs, b: EventInputs, i: Instruction) -> bool {
    let o = i.opcode;
    &&& b.touched_addresses == a.touched_addresses
    &&& b.syscalls_sent == a.syscalls_sent
    &&& b.addi_events == a.addi_events + unit(o is ADD && i.imm_c && !i.imm_b)
    &&& b.add_noop_events == a.add_noop_events + unit(
        o is ADD && i.imm_b && i.imm_c && i.op_a == 0 && i.op_b == 0 && i.op_c == 0,
    )
    &&& b.add_x0_events == a.add_x0_events + discarded(i, o is ADD)
    &&& b.sub_x0_events == a.sub_x0_events + discarded(i, o is SUB)
    &&& b.slt_i_events == a.slt_i_events + unit(o is SLT && i.imm_c)
    &&& b.sltu_i_events == a.sltu_i_events + unit(o is SLTU && i.imm_c)
    &&& b.slt_x0_events == a.slt_x0_events + discarded(i, o is SLT)
    &&& b.sltu_x0_events == a.sltu_x0_events + discarded(i, o is SLTU)
    &&& b.bitwise_x0_events == a.bitwise_x0_events + discarded(
        i,
        o is AND || o is OR || o is XOR || o is NOR,
    )
    &&& b.shift_right_x0_events == a.shift_right_x0_events + discarded(
        i,
        o is SRL || o is SRA || o is ROR,
    )
    &&& b.lui_events == a.lui_events + unit(o is SLL && i.imm_b)
    &&& b.shift_left_x0_events == a.shift_left_x0_events + discarded(i, o is SLL)
    &&& b.mul_x0_events == a.mul_x0_events + discarded(i, o is MUL)
    &&& b.movcond_x0_events == a.movcond_x0_events + discarded(
        i,
        o is MEQ || o is MNE || o is WSBH,
    )
    &&& b.divrem_x0_events == a.divrem_x0_events + discarded(i, o is MOD || o is MODU)
    &&& b.cloclz_x0_events == a.cloclz_x0_events + discarded(i, o is CLZ || o is CLO)
    &&& b.ins_x0_events == a.ins_x0_events + discarded(i, o is INS)
    &&& b.ext_x0_events == a.ext_x0_events + discarded(i, o is EXT)
    &&& b.sext_x0_events == a.sext_x0_events + discarded(i, o is SEXT)
    &&& b.load_x0_events == a.load_x0_events + discarded(i, o is LW || o is LL)
    &&& a.opcode_counts.len() == b.opcode_counts.len() == crate::opcode::NUM_OPCODES
    &&& forall|p: Opcode|
        b.opcode_counts[#[trigger] p.ordinal() as int] == a.opcode_counts[p.ordinal() as int]
            + unit(p == o)
}

proof fn lemma_op(a: EventInputs, b: EventInputs, i: Instruction, p: Opcode)
    requires
        one_more(a, b, i),
    ensures
        b.op(p) == a.op(p) + unit(p == i.opcode),
{
    assert(b.opcode_counts[p.ordinal() as int] == a.opcode_counts[p.ordinal() as int] + unit(
        p == i.opcode,
    ));
}

/// One more instruction is one more event of the chip that records it, and of no other.
pub proof fn one_more_instruction_is_one_more_event(
    a: EventInputs,
    b: EventInputs,
    i: Instruction,
    id: MipsAirId,
)
    requires
        one_more(a, b, i),
        !(i.opcode is UNIMPL),
    ensures
        Chip::of(i) is Some,
        b.count(id) == a.count(id) + unit(id == air_of(Chip::of(i)->Some_0)),
{
    assert forall|p: Opcode| #[trigger] b.op(p) == a.op(p) + unit(p == i.opcode) by {
        lemma_op(a, b, i, p);
    }
}

/// Every retired instruction is counted once: the counts of the chips of instructions add up to the
/// numbers of instructions of all opcodes that exist.
pub proof fn every_instruction_is_counted_once(n: EventInputs)
    ensures
        n.count(MipsAirId::Add) + n.count(MipsAirId::Addi) + n.count(MipsAirId::AddNoop) + n.count(
            MipsAirId::Sub,
        ) + n.count(MipsAirId::AluX0) + n.count(MipsAirId::Mul) + n.count(MipsAirId::Bitwise)
            + n.count(MipsAirId::ShiftLeft) + n.count(MipsAirId::Lui) + n.count(
            MipsAirId::ShiftRight,
        ) + n.count(MipsAirId::DivRem) + n.count(MipsAirId::Lt) + n.count(MipsAirId::Slti) + n.count(
            MipsAirId::Branch,
        ) + n.count(MipsAirId::Jump) + n.count(MipsAirId::Jumpi) + n.count(MipsAirId::JumpDirect)
            + n.count(MipsAirId::LoadWord) + n.count(MipsAirId::LoadX0) + n.count(
            MipsAirId::StoreWord,
        ) + n.count(MipsAirId::LoadByte) + n.count(MipsAirId::LoadHalf) + n.count(
            MipsAirId::LoadWordUnaligned,
        ) + n.count(MipsAirId::StoreByte) + n.count(MipsAirId::StoreHalf) + n.count(
            MipsAirId::StoreWordUnaligned,
        ) + n.count(MipsAirId::StoreConditional) + n.count(MipsAirId::Sext) + n.count(
            MipsAirId::Ins,
        ) + n.count(MipsAirId::Ext) + n.count(MipsAirId::Maddsub) + n.count(MipsAirId::Teq)
            + n.count(MipsAirId::MovCond) + n.count(MipsAirId::CloClz) + n.count(
            MipsAirId::SyscallInstrs,
        ) == n.op(Opcode::ADD) + n.op(Opcode::SUB) + n.op(Opcode::MULT) + n.op(Opcode::MULTU) + n.op(
            Opcode::MUL,
        ) + n.op(Opcode::DIV) + n.op(Opcode::DIVU) + n.op(Opcode::MOD) + n.op(Opcode::MODU) + n.op(
            Opcode::SLL,
        ) + n.op(Opcode::SRL) + n.op(Opcode::SRA) + n.op(Opcode::ROR) + n.op(Opcode::SLT) + n.op(
            Opcode::SLTU,
        ) + n.op(Opcode::AND) + n.op(Opcode::OR) + n.op(Opcode::XOR) + n.op(Opcode::NOR) + n.op(
            Opcode::CLZ,
        ) + n.op(Opcode::CLO) + n.op(Opcode::LB) + n.op(Opcode::LH) + n.op(Opcode::LWL) + n.op(
            Opcode::LW,
        ) + n.op(Opcode::LL) + n.op(Opcode::LBU) + n.op(Opcode::LHU) + n.op(Opcode::LWR) + n.op(
            Opcode::SB,
        ) + n.op(Opcode::SH) + n.op(Opcode::SWL) + n.op(Opcode::SW) + n.op(Opcode::SWR) + n.op(
            Opcode::SC,
        ) + n.op(Opcode::BEQ) + n.op(Opcode::BGEZ) + n.op(Opcode::BGTZ) + n.op(Opcode::BLEZ) + n.op(
            Opcode::BLTZ,
        ) + n.op(Opcode::BNE) + n.op(Opcode::Jump) + n.op(Opcode::Jumpi) + n.op(Opcode::JumpDirect)
            + n.op(Opcode::MEQ) + n.op(Opcode::MNE) + n.op(Opcode::WSBH) + n.op(Opcode::EXT) + n.op(
            Opcode::INS,
        ) + n.op(Opcode::SEXT) + n.op(Opcode::TEQ) + n.op(Opcode::MADDU) + n.op(Opcode::MSUBU)
            + n.op(Opcode::MADD) + n.op(Opcode::MSUB) + n.op(Opcode::SYSCALL),
{
}

/// Each touched address is a row in the table of accesses, four to a row and the last one filled
/// up, and two of the rows that shards share; a call that is sent is one more of those.
pub proof fn touched_addresses_fill_shared_rows(n: EventInputs)
    ensures
        4 * n.count(MipsAirId::MemoryLocal) >= n.touched_addresses,
        4 * n.count(MipsAirId::MemoryLocal) < n.touched_addresses + 4,
        n.count(MipsAirId::SyscallCore) == n.syscalls_sent,
        n.count(MipsAirId::Global) == n.touched_addresses + n.touched_addresses + n.count(
            MipsAirId::SyscallCore,
        ),
{
}

/// Padding for a number of cycles covers one event of every chip of instructions for each cycle, and
/// grows with the number of cycles.
pub proof fn padding_covers_every_cycle(chip: Chip, id: MipsAirId, m: u64, n: u64)
    requires
        m <= n,
    ensures
        cost::growth(air_of(chip), n) >= n,
        cost::growth(id, m) <= cost::growth(id, n),
        cost::growth(MipsAirId::StateBump, n) * 0x10_0000 >= n,
        cost::growth(MipsAirId::MemoryBump, n) >= 36 + cost::growth(MipsAirId::StateBump, n),
{
}

/// The chip whose rows the estimate of a shard's size counts for an instruction is the one that
/// records it, so long as the instruction is no form that the estimate passes over: products into
/// two registers, linked loads, and destinations and operands that ask for a chip of their own.
pub proof fn the_estimate_counts_the_recording_chip(i: Instruction)
    requires
        !(i.opcode is UNIMPL),
        !(i.opcode is MULT || i.opcode is MULTU || i.opcode is LL),
        i.op_a != 0,
        !(i.opcode is SLL && i.imm_b),
    ensures
        splicing::opcode_air(i) == air_of(Chip::of(i)->Some_0),
{
}

/// Recording an instruction adds one row of its chip and one of each chip that its call fills, and
/// their costs to the cells; every other chip keeps its rows.
pub proof fn recording_adds_the_rows_of_an_instruction(
    s: Shape,
    costs: AirCosts,
    i: Instruction,
    id: MipsAirId,
)
    requires
        s.area + costs.cost(splicing::opcode_air(i)) <= u64::MAX,
        s.height(id) < u64::MAX,
    ensures
        ({
            let t = s.recorded(costs, i, None);
            &&& t.area == s.area + costs.cost(splicing::opcode_air(i))
            &&& t.height(id) == s.height(id) + unit(id == splicing::opcode_air(i))
        }),
{
    reveal(Shape::recorded);
    if id != splicing::opcode_air(i) && id.ordinal() == splicing::opcode_air(i).ordinal() {
        air::air_positions_are_distinct(id, splicing::opcode_air(i));
    }
    air::air_positions_are_distinct(id, id);
    air::air_positions_are_distinct(splicing::opcode_air(i), splicing::opcode_air(i));
}

/// The family that a table of a precompiled operation serves.
pub open spec fn family_of(id: MipsAirId) -> Option<SyscallCode> {
    match id {
        MipsAirId::ShaExtendControl | MipsAirId::ShaExtend => Some(SyscallCode::SHA_EXTEND),
        MipsAirId::ShaCompressControl | MipsAirId::ShaCompress => Some(SyscallCode::SHA_COMPRESS),
        MipsAirId::EdAddAssign => Some(SyscallCode::ED_ADD),
        MipsAirId::EdDecompress => Some(SyscallCode::ED_DECOMPRESS),
        MipsAirId::KeccakSponge => Some(SyscallCode::KECCAK_SPONGE),
        MipsAirId::Secp256k1AddAssign => Some(SyscallCode::SECP256K1_ADD),
        MipsAirId::Secp256k1DoubleAssign => Some(SyscallCode::SECP256K1_DOUBLE),
        MipsAirId::Secp256k1Decompress => Some(SyscallCode::SECP256K1_DECOMPRESS),
        MipsAirId::Secp256r1AddAssign => Some(SyscallCode::SECP256R1_ADD),
        MipsAirId::Secp256r1DoubleAssign => Some(SyscallCode::SECP256R1_DOUBLE),
        MipsAirId::Secp256r1Decompress => Some(SyscallCode::SECP256R1_DECOMPRESS),
        MipsAirId::Bn254AddAssign => Some(SyscallCode::BN254_ADD),
        MipsAirId::Bn254DoubleAssign => Some(SyscallCode::BN254_DOUBLE),
        MipsAirId::Bls12381AddAssign => Some(SyscallCode::BLS12381_ADD),
        MipsAirId::Bls12381DoubleAssign => Some(SyscallCode::BLS12381_DOUBLE),
        MipsAirId::Bls12381Decompress => Some(SyscallCode::BLS12381_DECOMPRESS),
        MipsAirId::Uint256MulMod => Some(SyscallCode::UINT256_MUL),
        MipsAirId::U256XU2048Mul => Some(SyscallCode::U256XU2048_MUL),
        MipsAirId::Poseidon2Permute => Some(SyscallCode::POSEIDON2_PERMUTE),
        MipsAirId::Bls12381FpOpAssign => Some(SyscallCode::BLS12381_FP_ADD),
        MipsAirId::Bls12831Fp2AddSubAssign => Some(SyscallCode::BLS12381_FP2_ADD),
        MipsAirId::Bls12831Fp2MulAssign => Some(SyscallCode::BLS12381_FP2_MUL),
        MipsAirId::Bn254FpOpAssign => Some(SyscallCode::BN254_FP_ADD),
        MipsAirId::Bn254Fp2AddSubAssign => Some(SyscallCode::BN254_FP2_ADD),
        MipsAirId::Bn254Fp2MulAssign => Some(SyscallCode::BN254_FP2_MUL),
        MipsAirId::SysLinux => Some(SyscallCode::SYS_LINUX),
        _ => None,
    }
}

/// Families share no table: every table that the events of a family fill serves that family alone
/// and is no table of ordinary instructions, and every such table is filled by its family.
pub proof fn families_share_no_table(code: SyscallCode, id: MipsAirId, k: int)
    ensures
        0 <= k < cost::precompile_airs(code).len() ==> family_of(cost::precompile_airs(code)[k])
            == Some(code) && !cost::precompile_airs(code)[k].is_core(),
        family_of(id) matches Some(c) ==> cost::precompile_airs(c).contains(id),
        id.is_core() ==> family_of(id) is None,
{
    if let Some(c) = family_of(id) {
        let ids = cost::precompile_airs(c);
        assert(ids[0] == id || ids[1] == id);
    }
}

/// The rows that a record holds for the table of a chip are the events of the chip.
pub proof fn a_record_has_a_row_for_each_event(record: &ExecutionRecord, chip: Chip)
    ensures
        cost::rows(record, air_of(chip)) == record.ledger().count(chip),
        cost::counted(air_of(chip)),
        cost::projected(air_of(chip)),
{
}

proof fn lemma_projected_same(a: &AirCounts, b: &AirCounts, costs: &AirCosts, id: MipsAirId, n: int)
    requires
        0 <= n <= NUM_AIRS,
        forall|other: MipsAirId| other != id ==> #[trigger] a.at(other) == b.at(other),
    ensures
        cost::projected_cells(b, costs, n) - cost::projected_cells(a, costs, n) == if id.ordinal()
            < n && cost::projected(id) {
            cost::area(cost::next_power(b.at(id) as nat), costs.cost(id)) - cost::area(
                cost::next_power(a.at(id) as nat),
                costs.cost(id),
            )
        } else {
            0
        },
    decreases n,
{
    if n > 0 {
        lemma_projected_same(a, b, costs, id, n - 1);
        let last = MipsAirId::at((n - 1) as usize);
        lemma_at(n - 1);
        if last != id {
            assert(a.at(last) == b.at(last));
            if last.ordinal() == id.ordinal() {
                air::air_positions_are_distinct(last, id);
            }
        }
    }
}

proof fn lemma_at(k: int)
    requires
        0 <= k < NUM_AIRS,
    ensures
        MipsAirId::at(k as usize).ordinal() == k,
{
}

/// The size of a shard moves with each count by itself: where two shards differ in the count of one
/// chip, their sizes differ by the cells of that chip's padded rows, if the chip is one that the
/// size is projected for, and not at all otherwise.
pub proof fn each_chip_is_priced_by_its_rows(
    a: &AirCounts,
    b: &AirCounts,
    costs: &AirCosts,
    program_size: u64,
    events: PrecompileEvents,
    id: MipsAirId,
)
    requires
        forall|other: MipsAirId| other != id ==> #[trigger] a.at(other) == b.at(other),
    ensures
        cost::shard_cells(b, costs, program_size, events) - cost::shard_cells(
            a,
            costs,
            program_size,
            events,
        ) == if cost::projected(id) {
            (cost::next_power(b.at(id) as nat) - cost::next_power(a.at(id) as nat)) * costs.cost(id)
        } else {
            0
        },
{
    lemma_projected_same(a, b, costs, id, NUM_AIRS as int);
    air::air_positions_are_distinct(id, id);
    let x = cost::next_power(b.at(id) as nat);
    let y = cost::next_power(a.at(id) as nat);
    let c = costs.cost(id);
    assert(x * (c as nat) - y * (c as nat) == (x - y) * c) by (nonlinear_arith);
}

/// The size of a shard moves with the size of its program: each instruction is one row.
pub proof fn each_instruction_of_the_program_is_a_row(
    counts: &AirCounts,
    costs: &AirCosts,
    m: u64,
    n: u64,
    events: PrecompileEvents,
)
    ensures
        cost::shard_cells(counts, costs, n, events) - cost::shard_cells(counts, costs, m, events)
            == (n - m) * costs.cost(MipsAirId::Program),
{
    let c = costs.cost(MipsAirId::Program);
    assert((n as nat) * (c as nat) - (m as nat) * (c as nat) == (n - m) * c) by (nonlinear_arith);
}

proof fn lemma_counted_same(
    a: &ExecutionRecord,
    b: &ExecutionRecord,
    costs: &AirCosts,
    id: MipsAirId,
    n: int,
)
    requires
        0 <= n <= NUM_AIRS,
        forall|other: MipsAirId| other != id ==> #[trigger] cost::rows(a, other) == cost::rows(b, other),
    ensures
        cost::counted_cells(b, costs, n) - cost::counted_cells(a, costs, n) == if id.ordinal() < n
            && cost::counted(id) {
            cost::area(cost::next_power(cost::rows(b, id)), costs.cost(id)) - cost::area(
                cost::next_power(cost::rows(a, id)),
                costs.cost(id),
            )
        } else {
            0
        },
    decreases n,
{
    if n > 0 {
        lemma_counted_same(a, b, costs, id, n - 1);
        let last = MipsAirId::at((n - 1) as usize);
        lemma_at(n - 1);
        if last != id {
            assert(cost::rows(a, last) == cost::rows(b, last));
            if last.ordinal() == id.ordinal() {
                air::air_positions_are_distinct(last, id);
            }
        }
    }
}

/// The size of a finished record moves with the rows of each chip by itself: where two records
/// differ in the rows of one chip, their sizes differ by the cells of the padded rows.
pub proof fn each_chip_of_a_record_is_priced_by_its_rows(
    a: &ExecutionRecord,
    b: &ExecutionRecord,
    costs: &AirCosts,
    id: MipsAirId,
)
    requires
        a.program.instructions@.len() == b.program.instructions@.len(),
        a.precompile_events.count(a.precompile_events.groups@.len() as int)
            == b.precompile_events.count(b.precompile_events.groups@.len() as int),
        forall|other: MipsAirId| other != id ==> #[trigger] cost::rows(a, other) == cost::rows(b, other),
        cost::counted(id),
    ensures
        cost::record_cells(b, costs) - cost::record_cells(a, costs) == (cost::next_power(
            cost::rows(b, id),
        ) - cost::next_power(cost::rows(a, id))) * costs.cost(id),
{
    lemma_counted_same(a, b, costs, id, NUM_AIRS as int);
    air::air_positions_are_distinct(id, id);
    let x = cost::next_power(cost::rows(b, id));
    let y = cost::next_power(cost::rows(a, id));
    let c = costs.cost(id);
    assert(x * (c as nat) - y * (c as nat) == (x - y) * c) by (nonlinear_arith);
}

/// The chips that grow with the cycles are those that a shard is sized by; a record counts these and
/// the two tables of global memory; all of them are core chips, and so are the byte table and the
/// program, and no other chip is.
pub proof fn the_tables_of_chips_agree(id: MipsAirId)
    ensures
        cost::projected(id) <==> cost::growth(id, 1) > 0,
        cost::counted(id) <==> cost::projected(id) || id is MemoryGlobalInit
            || id is MemoryGlobalFinalize,
        id.is_core() <==> cost::counted(id) || id is Byte || id is Program,
{
}

/// The dearest chip for precompiled operations is one of them.
pub proof fn the_dearest_chip_exists(costs: &AirCosts, n: int)
    requires
        0 <= n <= NUM_AIRS,
        cost::dearest(costs, n) > 0,
    ensures
        exists|id: MipsAirId| !#[trigger] id.is_core() && costs.cost(id) == cost::dearest(costs, n),
    decreases n,
{
    let last = MipsAirId::at((n - 1) as usize);
    if !(!last.is_core() && costs.cost(last) > cost::dearest(costs, n - 1)) {
        the_dearest_chip_exists(costs, n - 1);
    }
}

} // verus!
