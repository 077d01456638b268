//! Laws of joined records: what two records hold is found again in the record that joins them.
use vstd::prelude::*;

use crate::chips::Chip;
use crate::record::ExecutionRecord;
use crate::syscalls::SyscallCode;

verus! {

/// The joined list can be taken apart again: the first list lies in front, the second one behind.
pub open spec fn joins<T>(all: Seq<T>, first: Seq<T>, second: Seq<T>) -> bool {
    &&& all.len() == first.len() + second.len()
    &&& forall|k: int| 0 <= k < first.len() ==> #[trigger] first[k] == all[k]
    &&& forall|k: int| 0 <= k < second.len() ==> #[trigger] second[k] == all[first.len() + k]
}

/// Joining two records loses no event, adds none and changes none: each chip's events of the first
/// record lie in front of those of the second one. Only conditional moves of the second record are
/// left behind.
pub proof fn joined_records_can_be_taken_apart(
    all: &ExecutionRecord,
    first: &ExecutionRecord,
    second: &ExecutionRecord,
    chip: Chip,
    code: SyscallCode,
)
    requires
        all.concatenates(first, second),
    ensures
        joins(all.cpu_events@, first.cpu_events@, second.cpu_events@),
        joins(all.alu_list(chip), first.alu_list(chip), second.alu_list(chip)),
        joins(all.comp_list(chip), first.comp_list(chip), second.comp_list(chip)),
        joins(all.memory_list(chip), first.memory_list(chip), second.memory_list(chip)),
        joins(all.branch_events@, first.branch_events@, second.branch_events@),
        joins(all.jump_list(chip), first.jump_list(chip), second.jump_list(chip)),
        joins(all.misc_list(chip), first.misc_list(chip), second.misc_list(chip)),
        joins(all.syscall_events@, first.syscall_events@, second.syscall_events@),
        joins(
            all.precompile_events.events(code),
            first.precompile_events.events(code),
            second.precompile_events.events(code),
        ),
        joins(
            all.global_memory_initialize_events@,
            first.global_memory_initialize_events@,
            second.global_memory_initialize_events@,
        ),
        joins(
            all.global_memory_finalize_events@,
            first.global_memory_finalize_events@,
            second.global_memory_finalize_events@,
        ),
        joins(
            all.cpu_local_memory_access@,
            first.cpu_local_memory_access@,
            second.cpu_local_memory_access@,
        ),
        joins(all.global_lookup_events@, first.global_lookup_events@, second.global_lookup_events@),
        joins(all.bump_clk_high_events@, first.bump_clk_high_events@, second.bump_clk_high_events@),
        joins(all.bump_memory_events@, first.bump_memory_events@, second.bump_memory_events@),
        all.ledger().count(chip) == first.ledger().count(chip) + if chip is MovCond {
            0
        } else {
            second.ledger().count(chip)
        },
{
}

/// What is deferred is not lost: a record without its deferred events, joined with these, holds the
/// events of the whole record again.
pub proof fn deferred_events_come_back(
    whole: &ExecutionRecord,
    rest: &ExecutionRecord,
    deferred: &ExecutionRecord,
    all: &ExecutionRecord,
    chip: Chip,
    code: SyscallCode,
)
    requires
        rest.same_but_deferred(whole),
        rest.precompile_events.groups@.len() == 0,
        rest.global_memory_initialize_events@.len() == 0,
        rest.global_memory_finalize_events@.len() == 0,
        deferred.only_deferred(),
        deferred.precompile_events == whole.precompile_events,
        deferred.global_memory_initialize_events == whole.global_memory_initialize_events,
        deferred.global_memory_finalize_events == whole.global_memory_finalize_events,
        all.concatenates(rest, deferred),
    ensures
        all.cpu_events@ == whole.cpu_events@,
        all.alu_list(chip) == whole.alu_list(chip),
        all.comp_list(chip) == whole.comp_list(chip),
        all.memory_list(chip) == whole.memory_list(chip),
        all.branch_events@ == whole.branch_events@,
        all.jump_list(chip) == whole.jump_list(chip),
        all.misc_list(chip) == whole.misc_list(chip),
        all.movcond_events@ == whole.movcond_events@,
        all.syscall_events@ == whole.syscall_events@,
        all.precompile_events.events(code) == whole.precompile_events.events(code),
        all.global_memory_initialize_events@ == whole.global_memory_initialize_events@,
        all.global_memory_finalize_events@ == whole.global_memory_finalize_events@,
        all.cpu_local_memory_access@ == whole.cpu_local_memory_access@,
        all.global_lookup_events@ == whole.global_lookup_events@,
        all.bump_clk_high_events@ == whole.bump_clk_high_events@,
        all.bump_memory_events@ == whole.bump_memory_events@,
{
    assert(all.precompile_events.events(code) =~= deferred.precompile_events.events(code)) by {
        assert(all.precompile_events.events(code) == rest.precompile_events.events(code)
            + deferred.precompile_events.events(code));
    }
    assert(all.alu_list(chip) =~= rest.alu_list(chip));
    assert(all.comp_list(chip) =~= rest.comp_list(chip));
    assert(all.memory_list(chip) =~= rest.memory_list(chip));
    assert(all.jump_list(chip) =~= rest.jump_list(chip));
    assert(all.misc_list(chip) =~= rest.misc_list(chip));
}

/// The public counts and sums of joined records are the same in either order, and a record without
/// any leaves those of the other one as they are. Every other public value is the first record's.
pub proof fn public_counts_add_up_either_way(
    all: &ExecutionRecord,
    swapped: &ExecutionRecord,
    first: &ExecutionRecord,
    second: &ExecutionRecord,
    i: int,
)
    requires
        all.adds_up(first, second),
        swapped.adds_up(second, first),
        0 <= i < 7,
    ensures
        ({
            let (p, q) = (all.public_values, swapped.public_values);
            let (a, b) = (first.public_values, second.public_values);
            &&& p.global_init_count == q.global_init_count
            &&& p.global_finalize_count == q.global_finalize_count
            &&& p.global_count == q.global_count
            &&& p.global_cumulative_sum_x@[i] == q.global_cumulative_sum_x@[i]
            &&& p.global_cumulative_sum_y@[i] == q.global_cumulative_sum_y@[i]
            &&& p.start_pc == a.start_pc && p.next_pc == a.next_pc
            &&& p.previous_init_addr == a.previous_init_addr
            &&& p.last_init_addr == a.last_init_addr
            &&& p.previous_finalize_addr == a.previous_finalize_addr
            &&& p.last_finalize_addr == a.last_finalize_addr
            &&& b.zero() ==> {
                &&& p.global_init_count == a.global_init_count
                &&& p.global_finalize_count == a.global_finalize_count
                &&& p.global_count == a.global_count
                &&& p.global_cumulative_sum_x@[i] == a.global_cumulative_sum_x@[i]
                &&& p.global_cumulative_sum_y@[i] == a.global_cumulative_sum_y@[i]
            }
            &&& a.zero() ==> {
                &&& p.global_init_count == b.global_init_count
                &&& p.global_finalize_count == b.global_finalize_count
                &&& p.global_count == b.global_count
                &&& p.global_cumulative_sum_x@[i] == b.global_cumulative_sum_x@[i]
                &&& p.global_cumulative_sum_y@[i] == b.global_cumulative_sum_y@[i]
            }
        }),
{
    let (p, q) = (all.public_values, swapped.public_values);
    let (a, b) = (first.public_values, second.public_values);
    assert(p.global_cumulative_sum_x@[i] == a.global_cumulative_sum_x@[i]
        + b.global_cumulative_sum_x@[i]);
    assert(p.global_cumulative_sum_y@[i] == a.global_cumulative_sum_y@[i]
        + b.global_cumulative_sum_y@[i]);
    assert(q.global_cumulative_sum_x@[i] == b.global_cumulative_sum_x@[i]
        + a.global_cumulative_sum_x@[i]);
    assert(q.global_cumulative_sum_y@[i] == b.global_cumulative_sum_y@[i]
        + a.global_cumulative_sum_y@[i]);
}

} // verus!
