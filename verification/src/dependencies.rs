//! Events that one instruction forces on another chip.
use vstd::prelude::*;

use crate::consts::{DEFAULT_PC_INC, UNUSED_PC};
use crate::events::{AluEvent, MemInstrEvent, MemoryRecord};
use crate::opcode::Opcode;
use crate::record::ExecutionRecord;
use crate::vm;

verus! {

/// The value that a sign-extending load extends, and the power of two behind its sign bit.
pub open spec fn extended_field(event: MemInstrEvent, mem_value: u32) -> (u32, u32) {
    let offset = event.b.wrapping_add(event.c) % 4;
    if event.opcode is LB {
        (vm::byte_of(mem_value, offset), 256)
    } else {
        (vm::half_of(mem_value, offset / 2), 65536)
    }
}

/// The subtraction that a sign-extending load of a negative value forces, if any.
pub open spec fn forced_subtraction(event: MemInstrEvent, mem_value: u32) -> Option<AluEvent> {
    let (field, range) = extended_field(event, mem_value);
    if (event.opcode is LB || event.opcode is LH) && field >= range / 2 {
        Some(
            AluEvent {
                clk: 0,
                pc: UNUSED_PC,
                next_pc: (UNUSED_PC + DEFAULT_PC_INC) as u32,
                opcode: Opcode::SUB,
                hi: 0,
                a: event.a,
                b: field,
                c: range,
                a_record: None,
                b_record: None,
                c_record: None,
            },
        )
    } else {
        None
    }
}

/// Adds the subtraction that a load forces, if any.
pub fn emit_memory_dependencies(
    record: &mut ExecutionRecord,
    event: MemInstrEvent,
    memory_record: MemoryRecord,
)
    ensures
        final(record).sub_events@ == (match forced_subtraction(event, memory_record.value) {
            Some(sub) => old(record).sub_events@.push(sub),
            None => old(record).sub_events@,
        }),
        *final(record) == (ExecutionRecord {
            sub_events: final(record).sub_events,
            ..*old(record)
        }),
{
    let memory_addr: u32 = event.b.wrapping_add(event.c);
    let offset: u32 = memory_addr % 4;
    let mem_value: u32 = memory_record.value;
    let (field, range): (u32, u32) = match event.opcode {
        Opcode::LB => {
            let shift: u32 = offset * 8;
            ((mem_value >> shift) & 0xff, 256)
        },
        Opcode::LH => {
            let shift: u32 = offset / 2 * 16;
            ((mem_value >> shift) & 0xffff, 65536)
        },
        _ => {
            return;
        },
    };
    if field >= range / 2 {
        record.sub_events.push(
            AluEvent {
                clk: 0,
                pc: UNUSED_PC,
                next_pc: UNUSED_PC + DEFAULT_PC_INC,
                opcode: Opcode::SUB,
                hi: 0,
                a: event.a,
                b: field,
                c: range,
                a_record: None,
                b_record: None,
                c_record: None,
            },
        );
    }
}

/// The forced subtraction computes what the load leaves in its destination.
pub proof fn forced_subtraction_sign_extends(event: MemInstrEvent, mem_value: u32, old_value: u32)
    requires
        forced_subtraction(event, mem_value) is Some,
    ensures
        vm::alu_result(
            Opcode::SUB,
            forced_subtraction(event, mem_value)->Some_0.b,
            forced_subtraction(event, mem_value)->Some_0.c,
        ).0 == vm::loaded(event.opcode, event.b.wrapping_add(event.c), mem_value, old_value),
{
    let (field, range) = extended_field(event, mem_value);
    let offset = event.b.wrapping_add(event.c) % 4;
    if event.opcode is LB {
        let shift = (offset * 8) as u32;
        assert(field == (mem_value >> shift) & 0xff);
        assert(field <= 0xff) by (bit_vector)
            requires
                field == (mem_value >> shift) & 0xff,
        ;
        lemma_extend_byte(field);
    } else {
        let shift = (offset / 2 * 16) as u32;
        assert(field == (mem_value >> shift) & 0xffff);
        assert(field <= 0xffff) by (bit_vector)
            requires
                field == (mem_value >> shift) & 0xffff,
        ;
        lemma_extend_half(field);
    }
}

/// A load forces a subtraction exactly if it extends the sign of a byte or half and the value that
/// it leaves is negative. The subtraction has the load's result.
pub proof fn only_negative_loads_force_a_subtraction(event: MemInstrEvent, mem_value: u32, old_value: u32)
    ensures
        forced_subtraction(event, mem_value) is Some <==> (event.opcode is LB || event.opcode is LH)
            && vm::signed(
            vm::loaded(event.opcode, event.b.wrapping_add(event.c), mem_value, old_value),
        ) < 0,
        forced_subtraction(event, mem_value) matches Some(sub) ==> {
            &&& sub.opcode is SUB
            &&& sub.a == event.a
            &&& sub.hi == 0
            &&& sub.next_pc == sub.pc + 4
            &&& sub.c == if event.opcode is LB {
                0x100int
            } else {
                0x1_0000
            }
        },
{
    crate::arithmetic::signed_loads_have_the_signed_value(
        event.b.wrapping_add(event.c),
        mem_value,
        old_value,
    );
}

proof fn lemma_extend_byte(v: u32)
    requires
        128 <= v <= 0xff,
    ensures
        vm::extended(v, 8) == vm::word(v - 256),
{
    assert(1u32 << 8u32 == 0x100) by (bit_vector);
    assert(v & 0xff == v && v >> 7u32 == 1 && (v | !0xffu32) == v + 0xffff_ff00) by (bit_vector)
        requires
            128 <= v <= 0xff,
    ;
}

proof fn lemma_extend_half(v: u32)
    requires
        0x8000 <= v <= 0xffff,
    ensures
        vm::extended(v, 16) == vm::word(v - 65536),
{
    assert(1u32 << 16u32 == 0x1_0000) by (bit_vector);
    assert(v & 0xffff == v && v >> 15u32 == 1 && (v | !0xffffu32) == v + 0xffff_0000) by (bit_vector)
        requires
            0x8000 <= v <= 0xffff,
    ;
}

} // verus!
