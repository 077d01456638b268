//! Laws of the statistics of a record: each name stands for the number of events that it says.
use vstd::prelude::*;

use crate::chips::Chip;
use crate::record::{self, ExecutionRecord};

verus! {

/// The name under which the events of a chip are counted. Conditional moves and system calls are
/// not counted by themselves.
pub open spec fn name_of(chip: Chip) -> Seq<char> {
    match chip {
        Chip::Add => "add_events"@,
        Chip::Addi => "addi_events"@,
        Chip::AddNoop => "add_noop_events"@,
        Chip::Sub => "sub_events"@,
        Chip::AluX0 => "alu_x0_events"@,
        Chip::Bitwise => "bitwise_events"@,
        Chip::ShiftLeft => "shift_left_events"@,
        Chip::Lui => "lui_events"@,
        Chip::ShiftRight => "shift_right_events"@,
        Chip::Lt => "lt_events"@,
        Chip::Slti => "slti_events"@,
        Chip::CloClz => "cloclz_events"@,
        Chip::Mul => "mul_events"@,
        Chip::DivRem => "divrem_events"@,
        Chip::LoadWord => "load_word_events"@,
        Chip::LoadX0 => "load_x0_events"@,
        Chip::LoadByte => "load_byte_events"@,
        Chip::LoadHalf => "load_half_events"@,
        Chip::LoadWordUnaligned => "load_word_unaligned_events"@,
        Chip::StoreWord => "store_word_events"@,
        Chip::StoreByte => "store_byte_events"@,
        Chip::StoreHalf => "store_half_events"@,
        Chip::StoreWordUnaligned => "store_word_unaligned_events"@,
        Chip::StoreConditional => "store_conditional_events"@,
        Chip::Branch => "branch_events"@,
        Chip::Jump => "jump_events"@,
        Chip::Jumpi => "jumpi_events"@,
        Chip::JumpDirect => "jumpdirect_events"@,
        Chip::Sext => "sext_events"@,
        Chip::Ins => "ins_events"@,
        Chip::Ext => "ext_events"@,
        Chip::MaddSub => "maddsub_events"@,
        Chip::Teq => "teq_events"@,
        _ => Seq::empty(),
    }
}

/// What tells the names apart: their length and two of their letters.
spec fn mark(name: Seq<char>) -> int {
    name.len() * 0x1_0000 + name[2] as int * 0x100 + name[6] as int
}

proof fn lemma_marks()
    ensures
        mark("cpu_events"@) == 685413,
        mark("add_events"@) == 681061,
        mark("addi_events"@) == 746614,
        mark("add_noop_events"@) == 1008751,
        mark("sub_events"@) == 680549,
        mark("alu_x0_events"@) == 882015,
        mark("mul_events"@) == 683109,
        mark("bitwise_events"@) == 947301,
        mark("shift_left_events"@) == 1141100,
        mark("lui_events"@) == 682341,
        mark("shift_right_events"@) == 1206642,
        mark("divrem_events"@) == 882271,
        mark("lt_events"@) == 614254,
        mark("slti_events"@) == 750710,
        mark("cloclz_events"@) == 880479,
        mark("load_word_events"@) == 1073519,
        mark("load_x0_events"@) == 942384,
        mark("store_word_events"@) == 1142647,
        mark("load_byte_events"@) == 1073529,
        mark("load_half_events"@) == 1073505,
        mark("load_word_unaligned_events"@) == 1728879,
        mark("store_byte_events"@) == 1142626,
        mark("store_half_events"@) == 1142632,
        mark("store_word_unaligned_events"@) == 1798007,
        mark("store_conditional_events"@) == 1601379,
        mark("branch_events"@) == 876895,
        mark("jump_events"@) == 748918,
        mark("jumpi_events"@) == 814437,
        mark("jumpdirect_events"@) == 1142130,
        mark("sext_events"@) == 751734,
        mark("ins_events"@) == 684901,
        mark("ext_events"@) == 685157,
        mark("maddsub_events"@) == 943202,
        mark("teq_events"@) == 684389,
        mark("global_memory_initialize_events"@) == 2060127,
        mark("global_memory_finalize_events"@) == 1929055,
        mark("local_memory_access_events"@) == 1729389,
        mark("bump_memory_events"@) == 1207653,
        mark("byte_lookups"@) == 816239,
{
    reveal_strlit("cpu_events");
    reveal_strlit("add_events");
    reveal_strlit("addi_events");
    reveal_strlit("add_noop_events");
    reveal_strlit("sub_events");
    reveal_strlit("alu_x0_events");
    reveal_strlit("mul_events");
    reveal_strlit("bitwise_events");
    reveal_strlit("shift_left_events");
    reveal_strlit("lui_events");
    reveal_strlit("shift_right_events");
    reveal_strlit("divrem_events");
    reveal_strlit("lt_events");
    reveal_strlit("slti_events");
    reveal_strlit("cloclz_events");
    reveal_strlit("load_word_events");
    reveal_strlit("load_x0_events");
    reveal_strlit("store_word_events");
    reveal_strlit("load_byte_events");
    reveal_strlit("load_half_events");
    reveal_strlit("load_word_unaligned_events");
    reveal_strlit("store_byte_events");
    reveal_strlit("store_half_events");
    reveal_strlit("store_word_unaligned_events");
    reveal_strlit("store_conditional_events");
    reveal_strlit("branch_events");
    reveal_strlit("jump_events");
    reveal_strlit("jumpi_events");
    reveal_strlit("jumpdirect_events");
    reveal_strlit("sext_events");
    reveal_strlit("ins_events");
    reveal_strlit("ext_events");
    reveal_strlit("maddsub_events");
    reveal_strlit("teq_events");
    reveal_strlit("global_memory_initialize_events");
    reveal_strlit("global_memory_finalize_events");
    reveal_strlit("local_memory_access_events");
    reveal_strlit("bump_memory_events");
    reveal_strlit("byte_lookups");
}

/// The second letter of a chip's name.
proof fn lemma_second_letter(chip: Chip)
    requires
        !(chip is MovCond || chip is Syscall),
    ensures
        name_of(chip).len() > 1,
        name_of(chip)[1] != 'y',
{
    reveal_strlit("add_events");
    reveal_strlit("addi_events");
    reveal_strlit("add_noop_events");
    reveal_strlit("sub_events");
    reveal_strlit("alu_x0_events");
    reveal_strlit("bitwise_events");
    reveal_strlit("shift_left_events");
    reveal_strlit("lui_events");
    reveal_strlit("shift_right_events");
    reveal_strlit("lt_events");
    reveal_strlit("slti_events");
    reveal_strlit("cloclz_events");
    reveal_strlit("mul_events");
    reveal_strlit("divrem_events");
    reveal_strlit("load_word_events");
    reveal_strlit("load_x0_events");
    reveal_strlit("load_byte_events");
    reveal_strlit("load_half_events");
    reveal_strlit("load_word_unaligned_events");
    reveal_strlit("store_word_events");
    reveal_strlit("store_byte_events");
    reveal_strlit("store_half_events");
    reveal_strlit("store_word_unaligned_events");
    reveal_strlit("store_conditional_events");
    reveal_strlit("branch_events");
    reveal_strlit("jump_events");
    reveal_strlit("jumpi_events");
    reveal_strlit("jumpdirect_events");
    reveal_strlit("sext_events");
    reveal_strlit("ins_events");
    reveal_strlit("ext_events");
    reveal_strlit("maddsub_events");
    reveal_strlit("teq_events");
}

/// The statistics count the events of each chip under the chip's name, and leave out chips without
/// any.
pub proof fn each_chip_is_counted_under_its_name(record: &ExecutionRecord, chip: Chip)
    requires
        !(chip is MovCond || chip is Syscall),
        record.ledger().count(chip) <= usize::MAX,
    ensures
        record.counts().contains_key(name_of(chip)) <==> record.ledger().count(chip) > 0,
        record.ledger().count(chip) > 0 ==> record.counts()[name_of(chip)] == record.ledger().count(
            chip,
        ),
{
    lemma_marks();
    lemma_length(record, chip);
    lemma_instructions(record, chip);
    lemma_groups(record, chip, record.precompile_events.groups@.len() as int);
}

/// A name is counted so far.
spec fn tallied(stats: Map<Seq<char>, usize>, key: Seq<char>, passed: bool, n: usize) -> bool {
    &&& stats.contains_key(key) == (passed && n > 0)
    &&& passed && n > 0 ==> stats[key] == n
}

/// One more count is noted.
proof fn lemma_noted(
    stats: Map<Seq<char>, usize>,
    name: Seq<char>,
    count: usize,
    key: Seq<char>,
    passed: bool,
    n: usize,
)
    requires
        tallied(stats, key, passed, n),
        key == name ==> !passed && count == n,
    ensures
        tallied(record::noted(stats, name, count), key, passed || key == name, n),
{
}

proof fn lemma_names(chip: Chip)
    requires
        !(chip is MovCond || chip is Syscall),
    ensures
        (name_of(chip) == "cpu_events"@) == false,
        (name_of(chip) == "add_events"@) == (chip is Add),
        (name_of(chip) == "addi_events"@) == (chip is Addi),
        (name_of(chip) == "add_noop_events"@) == (chip is AddNoop),
        (name_of(chip) == "sub_events"@) == (chip is Sub),
        (name_of(chip) == "alu_x0_events"@) == (chip is AluX0),
        (name_of(chip) == "mul_events"@) == (chip is Mul),
        (name_of(chip) == "bitwise_events"@) == (chip is Bitwise),
        (name_of(chip) == "shift_left_events"@) == (chip is ShiftLeft),
        (name_of(chip) == "lui_events"@) == (chip is Lui),
        (name_of(chip) == "shift_right_events"@) == (chip is ShiftRight),
        (name_of(chip) == "divrem_events"@) == (chip is DivRem),
        (name_of(chip) == "lt_events"@) == (chip is Lt),
        (name_of(chip) == "slti_events"@) == (chip is Slti),
        (name_of(chip) == "cloclz_events"@) == (chip is CloClz),
        (name_of(chip) == "load_word_events"@) == (chip is LoadWord),
        (name_of(chip) == "load_x0_events"@) == (chip is LoadX0),
        (name_of(chip) == "store_word_events"@) == (chip is StoreWord),
        (name_of(chip) == "load_byte_events"@) == (chip is LoadByte),
        (name_of(chip) == "load_half_events"@) == (chip is LoadHalf),
        (name_of(chip) == "load_word_unaligned_events"@) == (chip is LoadWordUnaligned),
        (name_of(chip) == "store_byte_events"@) == (chip is StoreByte),
        (name_of(chip) == "store_half_events"@) == (chip is StoreHalf),
        (name_of(chip) == "store_word_unaligned_events"@) == (chip is StoreWordUnaligned),
        (name_of(chip) == "store_conditional_events"@) == (chip is StoreConditional),
        (name_of(chip) == "branch_events"@) == (chip is Branch),
        (name_of(chip) == "jump_events"@) == (chip is Jump),
        (name_of(chip) == "jumpi_events"@) == (chip is Jumpi),
        (name_of(chip) == "jumpdirect_events"@) == (chip is JumpDirect),
        (name_of(chip) == "sext_events"@) == (chip is Sext),
        (name_of(chip) == "ins_events"@) == (chip is Ins),
        (name_of(chip) == "ext_events"@) == (chip is Ext),
        (name_of(chip) == "maddsub_events"@) == (chip is MaddSub),
        (name_of(chip) == "teq_events"@) == (chip is Teq),
{
    lemma_marks();
}

/// The number of events of a chip.
spec fn length(record: &ExecutionRecord, chip: Chip) -> nat {
    match chip {
        Chip::Add => record.add_events@.len(),
        Chip::Addi => record.addi_events@.len(),
        Chip::AddNoop => record.add_noop_events@.len(),
        Chip::Sub => record.sub_events@.len(),
        Chip::AluX0 => record.alu_x0_events@.len(),
        Chip::Mul => record.mul_events@.len(),
        Chip::Bitwise => record.bitwise_events@.len(),
        Chip::ShiftLeft => record.shift_left_events@.len(),
        Chip::Lui => record.lui_events@.len(),
        Chip::ShiftRight => record.shift_right_events@.len(),
        Chip::DivRem => record.divrem_events@.len(),
        Chip::Lt => record.lt_events@.len(),
        Chip::Slti => record.slti_events@.len(),
        Chip::CloClz => record.cloclz_events@.len(),
        Chip::LoadWord => record.load_word_events@.len(),
        Chip::LoadX0 => record.load_x0_events@.len(),
        Chip::StoreWord => record.store_word_events@.len(),
        Chip::LoadByte => record.load_byte_events@.len(),
        Chip::LoadHalf => record.load_half_events@.len(),
        Chip::LoadWordUnaligned => record.load_word_unaligned_events@.len(),
        Chip::StoreByte => record.store_byte_events@.len(),
        Chip::StoreHalf => record.store_half_events@.len(),
        Chip::StoreWordUnaligned => record.store_word_unaligned_events@.len(),
        Chip::StoreConditional => record.store_conditional_events@.len(),
        Chip::Branch => record.branch_events@.len(),
        Chip::Jump => record.jump_events@.len(),
        Chip::Jumpi => record.jumpi_events@.len(),
        Chip::JumpDirect => record.jumpdirect_events@.len(),
        Chip::Sext => record.sext_events@.len(),
        Chip::Ins => record.ins_events@.len(),
        Chip::Ext => record.ext_events@.len(),
        Chip::MaddSub => record.maddsub_events@.len(),
        Chip::Teq => record.teq_events@.len(),
        _ => 0,
    }
}

proof fn lemma_length(record: &ExecutionRecord, chip: Chip)
    requires
        !(chip is MovCond || chip is Syscall),
    ensures
        length(record, chip) == record.ledger().count(chip),
{
}

#[verifier::rlimit(60)]
proof fn lemma_instructions(record: &ExecutionRecord, chip: Chip)
    requires
        !(chip is MovCond || chip is Syscall),
        length(record, chip) <= usize::MAX,
    ensures
        tallied(
            record.instruction_stats(),
            name_of(chip),
            true,
            length(record, chip) as usize,
        ),
{
    lemma_names(chip);
    let key = name_of(chip);
    let n = length(record, chip) as usize;
    let none = Map::<Seq<char>, usize>::empty();
    let none_passed = false;
    let m0 = record::noted(none, "cpu_events"@, record.cpu_events@.len() as usize);
    lemma_noted(none, "cpu_events"@, record.cpu_events@.len() as usize, key, none_passed, n);
    let p0 = none_passed || key == "cpu_events"@;
    let m1 = record::noted(m0, "add_events"@, record.add_events@.len() as usize);
    lemma_noted(m0, "add_events"@, record.add_events@.len() as usize, key, p0, n);
    let p1 = p0 || key == "add_events"@;
    let m2 = record::noted(m1, "addi_events"@, record.addi_events@.len() as usize);
    lemma_noted(m1, "addi_events"@, record.addi_events@.len() as usize, key, p1, n);
    let p2 = p1 || key == "addi_events"@;
    let m3 = record::noted(m2, "add_noop_events"@, record.add_noop_events@.len() as usize);
    lemma_noted(m2, "add_noop_events"@, record.add_noop_events@.len() as usize, key, p2, n);
    let p3 = p2 || key == "add_noop_events"@;
    let m4 = record::noted(m3, "sub_events"@, record.sub_events@.len() as usize);
    lemma_noted(m3, "sub_events"@, record.sub_events@.len() as usize, key, p3, n);
    let p4 = p3 || key == "sub_events"@;
    let m5 = record::noted(m4, "alu_x0_events"@, record.alu_x0_events@.len() as usize);
    lemma_noted(m4, "alu_x0_events"@, record.alu_x0_events@.len() as usize, key, p4, n);
    let p5 = p4 || key == "alu_x0_events"@;
    let m6 = record::noted(m5, "mul_events"@, record.mul_events@.len() as usize);
    lemma_noted(m5, "mul_events"@, record.mul_events@.len() as usize, key, p5, n);
    let p6 = p5 || key == "mul_events"@;
    let m7 = record::noted(m6, "bitwise_events"@, record.bitwise_events@.len() as usize);
    lemma_noted(m6, "bitwise_events"@, record.bitwise_events@.len() as usize, key, p6, n);
    let p7 = p6 || key == "bitwise_events"@;
    let m8 = record::noted(m7, "shift_left_events"@, record.shift_left_events@.len() as usize);
    lemma_noted(m7, "shift_left_events"@, record.shift_left_events@.len() as usize, key, p7, n);
    let p8 = p7 || key == "shift_left_events"@;
    let m9 = record::noted(m8, "lui_events"@, record.lui_events@.len() as usize);
    lemma_noted(m8, "lui_events"@, record.lui_events@.len() as usize, key, p8, n);
    let p9 = p8 || key == "lui_events"@;
    let m10 = record::noted(m9, "shift_right_events"@, record.shift_right_events@.len() as usize);
    lemma_noted(m9, "shift_right_events"@, record.shift_right_events@.len() as usize, key, p9, n);
    let p10 = p9 || key == "shift_right_events"@;
    let m11 = record::noted(m10, "divrem_events"@, record.divrem_events@.len() as usize);
    lemma_noted(m10, "divrem_events"@, record.divrem_events@.len() as usize, key, p10, n);
    let p11 = p10 || key == "divrem_events"@;
    let m12 = record::noted(m11, "lt_events"@, record.lt_events@.len() as usize);
    lemma_noted(m11, "lt_events"@, record.lt_events@.len() as usize, key, p11, n);
    let p12 = p11 || key == "lt_events"@;
    let m13 = record::noted(m12, "slti_events"@, record.slti_events@.len() as usize);
    lemma_noted(m12, "slti_events"@, record.slti_events@.len() as usize, key, p12, n);
    let p13 = p12 || key == "slti_events"@;
    let m14 = record::noted(m13, "cloclz_events"@, record.cloclz_events@.len() as usize);
    lemma_noted(m13, "cloclz_events"@, record.cloclz_events@.len() as usize, key, p13, n);
    let p14 = p13 || key == "cloclz_events"@;
    let m15 = record::noted(m14, "load_word_events"@, record.load_word_events@.len() as usize);
    lemma_noted(m14, "load_word_events"@, record.load_word_events@.len() as usize, key, p14, n);
    let p15 = p14 || key == "load_word_events"@;
    let m16 = record::noted(m15, "load_x0_events"@, record.load_x0_events@.len() as usize);
    lemma_noted(m15, "load_x0_events"@, record.load_x0_events@.len() as usize, key, p15, n);
    let p16 = p15 || key == "load_x0_events"@;
    let m17 = record::noted(m16, "store_word_events"@, record.store_word_events@.len() as usize);
    lemma_noted(m16, "store_word_events"@, record.store_word_events@.len() as usize, key, p16, n);
    let p17 = p16 || key == "store_word_events"@;
    let m18 = record::noted(m17, "load_byte_events"@, record.load_byte_events@.len() as usize);
    lemma_noted(m17, "load_byte_events"@, record.load_byte_events@.len() as usize, key, p17, n);
    let p18 = p17 || key == "load_byte_events"@;
    let m19 = record::noted(m18, "load_half_events"@, record.load_half_events@.len() as usize);
    lemma_noted(m18, "load_half_events"@, record.load_half_events@.len() as usize, key, p18, n);
    let p19 = p18 || key == "load_half_events"@;
    let m20 = record::noted(m19, "load_word_unaligned_events"@, record.load_word_unaligned_events@.len() as usize);
    lemma_noted(m19, "load_word_unaligned_events"@, record.load_word_unaligned_events@.len() as usize, key, p19, n);
    let p20 = p19 || key == "load_word_unaligned_events"@;
    let m21 = record::noted(m20, "store_byte_events"@, record.store_byte_events@.len() as usize);
    lemma_noted(m20, "store_byte_events"@, record.store_byte_events@.len() as usize, key, p20, n);
    let p21 = p20 || key == "store_byte_events"@;
    let m22 = record::noted(m21, "store_half_events"@, record.store_half_events@.len() as usize);
    lemma_noted(m21, "store_half_events"@, record.store_half_events@.len() as usize, key, p21, n);
    let p22 = p21 || key == "store_half_events"@;
    let m23 = record::noted(m22, "store_word_unaligned_events"@, record.store_word_unaligned_events@.len() as usize);
    lemma_noted(m22, "store_word_unaligned_events"@, record.store_word_unaligned_events@.len() as usize, key, p22, n);
    let p23 = p22 || key == "store_word_unaligned_events"@;
    let m24 = record::noted(m23, "store_conditional_events"@, record.store_conditional_events@.len() as usize);
    lemma_noted(m23, "store_conditional_events"@, record.store_conditional_events@.len() as usize, key, p23, n);
    let p24 = p23 || key == "store_conditional_events"@;
    let m25 = record::noted(m24, "branch_events"@, record.branch_events@.len() as usize);
    lemma_noted(m24, "branch_events"@, record.branch_events@.len() as usize, key, p24, n);
    let p25 = p24 || key == "branch_events"@;
    let m26 = record::noted(m25, "jump_events"@, record.jump_events@.len() as usize);
    lemma_noted(m25, "jump_events"@, record.jump_events@.len() as usize, key, p25, n);
    let p26 = p25 || key == "jump_events"@;
    let m27 = record::noted(m26, "jumpi_events"@, record.jumpi_events@.len() as usize);
    lemma_noted(m26, "jumpi_events"@, record.jumpi_events@.len() as usize, key, p26, n);
    let p27 = p26 || key == "jumpi_events"@;
    let m28 = record::noted(m27, "jumpdirect_events"@, record.jumpdirect_events@.len() as usize);
    lemma_noted(m27, "jumpdirect_events"@, record.jumpdirect_events@.len() as usize, key, p27, n);
    let p28 = p27 || key == "jumpdirect_events"@;
    let m29 = record::noted(m28, "sext_events"@, record.sext_events@.len() as usize);
    lemma_noted(m28, "sext_events"@, record.sext_events@.len() as usize, key, p28, n);
    let p29 = p28 || key == "sext_events"@;
    let m30 = record::noted(m29, "ins_events"@, record.ins_events@.len() as usize);
    lemma_noted(m29, "ins_events"@, record.ins_events@.len() as usize, key, p29, n);
    let p30 = p29 || key == "ins_events"@;
    let m31 = record::noted(m30, "ext_events"@, record.ext_events@.len() as usize);
    lemma_noted(m30, "ext_events"@, record.ext_events@.len() as usize, key, p30, n);
    let p31 = p30 || key == "ext_events"@;
    let m32 = record::noted(m31, "maddsub_events"@, record.maddsub_events@.len() as usize);
    lemma_noted(m31, "maddsub_events"@, record.maddsub_events@.len() as usize, key, p31, n);
    let p32 = p31 || key == "maddsub_events"@;
    let m33 = record::noted(m32, "teq_events"@, record.teq_events@.len() as usize);
    lemma_noted(m32, "teq_events"@, record.teq_events@.len() as usize, key, p32, n);
    let p33 = p32 || key == "teq_events"@;
    assert(m33 == record.instruction_stats());
}

proof fn lemma_groups(record: &ExecutionRecord, chip: Chip, n: int)
    requires
        !(chip is MovCond || chip is Syscall),
        n <= record.precompile_events.groups@.len(),
    ensures
        ({
            let stats = record.precompile_stats(n);
            let own = record.instruction_stats();
            &&& stats.contains_key(name_of(chip)) == own.contains_key(name_of(chip))
            &&& stats.contains_key(name_of(chip)) ==> stats[name_of(chip)] == own[name_of(chip)]
        }),
    decreases n,
{
    if n > 0 {
        lemma_groups(record, chip, n - 1);
        lemma_second_letter(chip);
        let key = "syscall "@ + record.precompile_events.groups@[n - 1].0.spelling();
        assert(key[1] == 'y') by {
            reveal_strlit("syscall ");
        }
        assert(key != name_of(chip));
    }
}

} // verus!
