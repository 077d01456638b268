//! Splitting deferred events into shards of a reasonable size.
use std::sync::Arc;

use vstd::prelude::*;

use crate::events::precompiles::EventList;
use crate::events::{MemoryInitializeFinalizeEvent, PrecompileEvent, PrecompileEvents, SyscallEvent};
use crate::program::Program;
use crate::record::{ExecutionRecord, PublicValues, SplitOpts};
use crate::syscalls::SyscallCode;

verus! {

/// The number of blocks that an event of the sponge absorbs; zero for other events.
pub open spec fn blocks(event: (SyscallEvent, PrecompileEvent)) -> nat {
    match event.1 {
        PrecompileEvent::KeccakSponge(e) => (e.input_len_u32s / 34) as nat,
        _ => 0,
    }
}

/// The number of blocks that the first `k` events absorb.
pub open spec fn total_blocks(events: Seq<(SyscallEvent, PrecompileEvent)>, k: int) -> nat
    decreases k,
{
    if k <= 0 {
        0
    } else {
        total_blocks(events, k - 1) + blocks(events[k - 1])
    }
}

/// The number of events, from the `k`th on, before a sponge event would exceed the threshold. The
/// first event always fits.
pub open spec fn sponge_piece(
    events: Seq<(SyscallEvent, PrecompileEvent)>,
    threshold: nat,
    k: int,
) -> int
    decreases events.len() - k,
{
    if k >= events.len() {
        events.len() as int
    } else if k >= 1 && events[k].1 is KeccakSponge && total_blocks(events, k) + blocks(events[k])
        > threshold {
        k
    } else {
        sponge_piece(events, threshold, k + 1)
    }
}

/// The threshold of a system call.
pub open spec fn threshold_of(code: SyscallCode, opts: SplitOpts) -> nat {
    match code {
        SyscallCode::KECCAK_SPONGE => opts.keccak as nat,
        SyscallCode::SHA_EXTEND => opts.sha_extend as nat,
        SyscallCode::SHA_COMPRESS => opts.sha_compress as nat,
        _ => opts.deferred as nat,
    }
}

/// The number of events that fill the first shard, if they fill one.
pub open spec fn first_piece(
    code: SyscallCode,
    events: Seq<(SyscallEvent, PrecompileEvent)>,
    threshold: nat,
) -> Option<int> {
    if code == SyscallCode::KECCAK_SPONGE {
        let k = sponge_piece(events, threshold, 0);
        if k < events.len() {
            Some(k)
        } else {
            None
        }
    } else if threshold > 0 && events.len() >= threshold {
        Some(threshold as int)
    } else {
        None
    }
}

/// The events cut into full shards, and what is left over.
pub open spec fn cut(
    code: SyscallCode,
    events: Seq<(SyscallEvent, PrecompileEvent)>,
    threshold: nat,
) -> (Seq<Seq<(SyscallEvent, PrecompileEvent)>>, Seq<(SyscallEvent, PrecompileEvent)>)
    decreases events.len(),
{
    match first_piece(code, events, threshold) {
        None => (Seq::empty(), events),
        Some(k) => if k <= 0 || k > events.len() {
            (Seq::empty(), events)
        } else {
            let (pieces, rest) = cut(code, events.skip(k), threshold);
            (seq![events.take(k)] + pieces, rest)
        },
    }
}

/// The concatenation of pieces.
pub open spec fn joined(pieces: Seq<Seq<(SyscallEvent, PrecompileEvent)>>) -> Seq<
    (SyscallEvent, PrecompileEvent),
>
    decreases pieces.len(),
{
    if pieces.len() == 0 {
        Seq::empty()
    } else {
        pieces[0] + joined(pieces.skip(1))
    }
}

/// Cutting loses no event, invents none and keeps their order.
pub proof fn cutting_keeps_every_event(
    code: SyscallCode,
    events: Seq<(SyscallEvent, PrecompileEvent)>,
    threshold: nat,
)
    ensures
        joined(cut(code, events, threshold).0) + cut(code, events, threshold).1 == events,
    decreases events.len(),
{
    let (pieces, rest) = cut(code, events, threshold);
    match first_piece(code, events, threshold) {
        Some(k) if 0 < k <= events.len() => {
            cutting_keeps_every_event(code, events.skip(k), threshold);
            let (more, rest2) = cut(code, events.skip(k), threshold);
            assert(pieces.skip(1) =~= more);
            assert(pieces[0] == events.take(k));
            assert(joined(pieces) + rest =~= events.take(k) + (joined(more) + rest2));
            assert(events.take(k) + events.skip(k) =~= events);
        },
        _ => {
            assert(joined(pieces) + rest =~= events);
        },
    }
}

proof fn lemma_sponge_piece(events: Seq<(SyscallEvent, PrecompileEvent)>, threshold: nat, k: int)
    requires
        0 <= k <= events.len(),
    ensures
        k <= sponge_piece(events, threshold, k) <= events.len(),
        events.len() > 0 ==> sponge_piece(events, threshold, k) >= 1,
    decreases events.len() - k,
{
    if k < events.len() {
        lemma_sponge_piece(events, threshold, k + 1);
    }
}

/// No shard of sponge events exceeds the threshold, unless it holds a single event or events of
/// another kind.
pub proof fn sponge_shards_respect_the_threshold(
    events: Seq<(SyscallEvent, PrecompileEvent)>,
    threshold: nat,
    k: int,
)
    requires
        events.len() > 0,
        0 <= k <= sponge_piece(events, threshold, 0),
    ensures
        total_blocks(events, k) <= threshold || k <= 1 || total_blocks(events, 1) > threshold,
    decreases k,
{
    lemma_sponge_prefix(events, threshold, 0, k);
}

proof fn lemma_sponge_prefix(
    events: Seq<(SyscallEvent, PrecompileEvent)>,
    threshold: nat,
    from: int,
    k: int,
)
    requires
        events.len() > 0,
        0 <= from <= k <= sponge_piece(events, threshold, from),
        total_blocks(events, from) <= threshold || from <= 1 || total_blocks(events, 1) > threshold,
    ensures
        total_blocks(events, k) <= threshold || k <= 1 || total_blocks(events, 1) > threshold,
    decreases k - from,
{
    if from < k {
        lemma_sponge_piece(events, threshold, from);
        lemma_sponge_prefix(events, threshold, from + 1, k);
    }
}

/// Finds how many events fill the first shard, if they fill one.
fn find_piece(code: SyscallCode, events: &EventList, threshold: usize) -> (r: Option<usize>)
    requires
        code != SyscallCode::KECCAK_SPONGE ==> threshold > 0,
    ensures
        match r {
            Some(k) => first_piece(code, events@, threshold as nat) == Some(k as int) && 0 < k
                <= events@.len(),
            None => first_piece(code, events@, threshold as nat) is None,
        },
{
    if code != SyscallCode::KECCAK_SPONGE {
        if events.len() >= threshold {
            return Some(threshold);
        }
        return None;
    }
    let mut total: u128 = 0;
    let mut k: usize = 0;
    while k < events.len()
        invariant
            k <= events@.len(),
            code == SyscallCode::KECCAK_SPONGE,
            total == total_blocks(events@, k as int),
            total <= k * 0x1_0000_0000,
            sponge_piece(events@, threshold as nat, 0) == sponge_piece(
                events@,
                threshold as nat,
                k as int,
            ),
        decreases events@.len() - k,
    {
        let more: u128 = match &events[k].1 {
            PrecompileEvent::KeccakSponge(e) => {
                let more: u128 = (e.input_len_u32s / 34) as u128;
                if k >= 1 && total + more > threshold as u128 {
                    return Some(k);
                }
                more
            },
            _ => 0,
        };
        total = total + more;
        k = k + 1;
    }
    None
}

/// Cuts events into full shards and what is left over.
fn cut_list(code: SyscallCode, events: EventList, threshold: usize) -> (r: (Vec<EventList>, EventList))
    requires
        code != SyscallCode::KECCAK_SPONGE ==> threshold > 0,
    ensures
        r.0@.map_values(|v: EventList| v@) == cut(code, events@, threshold as nat).0,
        r.1@ == cut(code, events@, threshold as nat).1,
{
    let ghost all = events@;
    let mut left: EventList = events;
    let mut pieces: Vec<EventList> = Vec::new();
    let mut go_on: bool = true;
    proof {
        assert(pieces@.map_values(|v: EventList| v@) + cut(code, left@, threshold as nat).0 =~= cut(
            code,
            all,
            threshold as nat,
        ).0);
    }
    while go_on
        invariant
            code != SyscallCode::KECCAK_SPONGE ==> threshold > 0,
            pieces@.map_values(|v: EventList| v@) + cut(code, left@, threshold as nat).0 == cut(
                code,
                all,
                threshold as nat,
            ).0,
            cut(code, left@, threshold as nat).1 == cut(code, all, threshold as nat).1,
            !go_on ==> first_piece(code, left@, threshold as nat) is None,
        decreases left@.len() + (if go_on { 1int } else { 0int }),
    {
        match find_piece(code, &left, threshold) {
            None => {
                go_on = false;
            },
            Some(k) => {
                let ghost before = left@;
                let ghost earlier = pieces@;
                let tail: EventList = left.split_off(k);
                let mut piece: EventList = tail;
                std::mem::swap(&mut piece, &mut left);
                proof {
                    assert(piece@ =~= before.take(k as int));
                    assert(left@ =~= before.skip(k as int));
                }
                pieces.push(piece);
                proof {
                    assert(pieces@.map_values(|v: EventList| v@) =~= earlier.map_values(
                        |v: EventList| v@,
                    ).push(before.take(k as int)));
                    let (more, rest) = cut(code, before.skip(k as int), threshold as nat);
                    assert(cut(code, before, threshold as nat).0 == seq![before.take(k as int)] + more);
                    assert(pieces@.map_values(|v: EventList| v@) + more =~= earlier.map_values(
                        |v: EventList| v@,
                    ) + (seq![before.take(k as int)] + more));
                }
            },
        }
    }
    proof {
        assert(pieces@.map_values(|v: EventList| v@) + cut(code, left@, threshold as nat).0
            =~= pieces@.map_values(|v: EventList| v@));
    }
    (pieces, left)
}

/// A shard that holds the events of one precompiled operation and nothing else.
pub open spec fn carries(
    record: ExecutionRecord,
    program: Arc<Program>,
    code: SyscallCode,
    events: Seq<(SyscallEvent, PrecompileEvent)>,
) -> bool {
    &&& record.program == program
    &&& record.only_deferred()
    &&& record.public_values.zero()
    &&& record.global_memory_initialize_events@.len() == 0
    &&& record.global_memory_finalize_events@.len() == 0
    &&& record.precompile_events.groups@.len() == 1
    &&& record.precompile_events.groups@[0].0 == code
    &&& record.precompile_events.groups@[0].1@ == events
}

/// Create a shard that holds the events of one precompiled operation and nothing else.
fn piece_record(program: &Arc<Program>, code: SyscallCode, events: EventList) -> (r: ExecutionRecord)
    ensures
        carries(r, *program, code, events@),
{
    let mut record: ExecutionRecord = ExecutionRecord::new(program.clone());
    record.precompile_events.groups.push((code, events));
    record
}

/// What the groups up to the `n`th contribute: full shards, and the rest if it is the last time.
pub open spec fn deferred_shards(
    groups: Seq<(SyscallCode, EventList)>,
    opts: SplitOpts,
    last: bool,
    n: int,
) -> Seq<(SyscallCode, Seq<(SyscallEvent, PrecompileEvent)>)>
    decreases n,
{
    if n <= 0 {
        Seq::empty()
    } else {
        deferred_shards(groups, opts, last, n - 1) + group_shards(groups[n - 1], opts, last)
    }
}

/// What one group contributes.
pub open spec fn group_shards(group: (SyscallCode, EventList), opts: SplitOpts, last: bool) -> Seq<
    (SyscallCode, Seq<(SyscallEvent, PrecompileEvent)>),
> {
    let (pieces, rest) = cut(group.0, group.1@, threshold_of(group.0, opts));
    let full = pieces.map_values(
        |piece: Seq<(SyscallEvent, PrecompileEvent)>| (group.0, piece),
    );
    if last && rest.len() > 0 {
        full.push((group.0, rest))
    } else {
        full
    }
}

/// The events of a system call that wait for the next time.
pub open spec fn kept(
    events: Seq<(SyscallEvent, PrecompileEvent)>,
    code: SyscallCode,
    opts: SplitOpts,
    last: bool,
) -> Seq<(SyscallEvent, PrecompileEvent)> {
    if last {
        Seq::empty()
    } else {
        cut(code, events, threshold_of(code, opts)).1
    }
}

/// The address of the last of the first `k` events, zero if there is none.
pub open spec fn addr_before(events: Seq<MemoryInitializeFinalizeEvent>, k: int) -> u32 {
    let c = if k < events.len() {
        k
    } else {
        events.len() as int
    };
    if c <= 0 {
        0
    } else {
        events[c - 1].addr
    }
}

/// The `j`th chunk of a list.
pub open spec fn chunk(events: Seq<MemoryInitializeFinalizeEvent>, size: int, j: int) -> Seq<
    MemoryInitializeFinalizeEvent,
> {
    let start = if j * size < events.len() {
        j * size
    } else {
        events.len() as int
    };
    let end = if (j + 1) * size < events.len() {
        (j + 1) * size
    } else {
        events.len() as int
    };
    events.subrange(start, end)
}

/// The number of chunks of the longer of two lists.
pub open spec fn rounds(
    init: Seq<MemoryInitializeFinalizeEvent>,
    finalize: Seq<MemoryInitializeFinalizeEvent>,
    size: int,
) -> int {
    let n = if init.len() < finalize.len() {
        finalize.len() as int
    } else {
        init.len() as int
    };
    (n + size - 1) / size
}

/// The public values link the addresses of a chunk to those before it.
pub open spec fn links(
    p: PublicValues,
    init: Seq<MemoryInitializeFinalizeEvent>,
    finalize: Seq<MemoryInitializeFinalizeEvent>,
    size: int,
    j: int,
) -> bool {
    &&& p.previous_init_addr == addr_before(init, j * size)
    &&& p.last_init_addr == addr_before(init, (j + 1) * size)
    &&& p.previous_finalize_addr == addr_before(finalize, j * size)
    &&& p.last_finalize_addr == addr_before(finalize, (j + 1) * size)
}

/// Every public value is zero beside the addresses.
pub open spec fn only_addresses(p: PublicValues) -> bool {
    (PublicValues {
        previous_init_addr: 0,
        last_init_addr: 0,
        previous_finalize_addr: 0,
        last_finalize_addr: 0,
        ..p
    }).zero()
}

/// A shard that holds the `j`th chunk of memory events and nothing else.
pub open spec fn memory_shard(
    record: ExecutionRecord,
    program: Arc<Program>,
    init: Seq<MemoryInitializeFinalizeEvent>,
    finalize: Seq<MemoryInitializeFinalizeEvent>,
    size: int,
    j: int,
) -> bool {
    &&& record.program == program
    &&& record.only_deferred()
    &&& record.precompile_events.groups@.len() == 0
    &&& record.global_memory_initialize_events@ == chunk(init, size, j)
    &&& record.global_memory_finalize_events@ == chunk(finalize, size, j)
    &&& links(record.public_values, init, finalize, size, j)
    &&& only_addresses(record.public_values)
}

/// The address chain threads through consecutive shards: each one starts where the one before it
/// ended, and the first one starts at zero.
pub proof fn memory_shards_chain(
    p: PublicValues,
    q: PublicValues,
    init: Seq<MemoryInitializeFinalizeEvent>,
    finalize: Seq<MemoryInitializeFinalizeEvent>,
    size: int,
    j: int,
)
    requires
        links(p, init, finalize, size, j),
        links(q, init, finalize, size, j + 1),
    ensures
        q.previous_init_addr == p.last_init_addr,
        q.previous_finalize_addr == p.last_finalize_addr,
        j == 0 ==> p.previous_init_addr == 0 && p.previous_finalize_addr == 0,
{
    if j == 0 {
        assert(0 * size == 0);
    }
}

/// The list is sorted by address.
pub open spec fn by_addr(events: Seq<MemoryInitializeFinalizeEvent>) -> bool {
    forall|i: int, j: int|
        0 <= i <= j < events.len() ==> (#[trigger] events[i]).addr <= (#[trigger] events[j]).addr
}

/// `slice::sort_by_key` by address: the same events, sorted, those of one address in their old
/// order.
#[verifier::external_body]
fn sort_by_addr(events: &mut Vec<MemoryInitializeFinalizeEvent>)
    ensures
        by_addr(final(events)@),
        final(events)@.to_multiset() == old(events)@.to_multiset(),
        final(events)@.len() == old(events)@.len(),
        forall|a: u32| #[trigger]
            of_addr(final(events)@, a) == of_addr(old(events)@, a),
{
    events.sort_by_key(|event| event.addr);
}

/// The events of one address.
pub open spec fn of_addr(events: Seq<MemoryInitializeFinalizeEvent>, addr: u32) -> Seq<
    MemoryInitializeFinalizeEvent,
> {
    events.filter(|e: MemoryInitializeFinalizeEvent| e.addr == addr)
}

/// A sorted rearrangement that keeps the order of events of one address.
pub open spec fn sorted_from(
    now: Seq<MemoryInitializeFinalizeEvent>,
    was: Seq<MemoryInitializeFinalizeEvent>,
) -> bool {
    &&& by_addr(now)
    &&& now.to_multiset() == was.to_multiset()
    &&& now.len() == was.len()
    &&& forall|a: u32| #[trigger] of_addr(now, a) == of_addr(was, a)
}

/// A copy of the `j`th chunk of a list.
fn copy_chunk(events: &Vec<MemoryInitializeFinalizeEvent>, size: usize, j: usize) -> (r: Vec<
    MemoryInitializeFinalizeEvent,
>)
    requires
        size > 0,
    ensures
        r@ == chunk(events@, size as int, j as int),
{
    let n: u128 = events.len() as u128;
    proof {
        assert(j * size <= usize::MAX * usize::MAX && 0 <= j * size) by (nonlinear_arith)
            requires
                j <= usize::MAX,
                size <= usize::MAX,
        ;
    }
    let from: u128 = (j as u128) * (size as u128);
    let to: u128 = (j as u128) * (size as u128) + (size as u128);
    let start: usize = if from < n { from as usize } else { events.len() };
    let end: usize = if to < n { to as usize } else { events.len() };
    proof {
        assert((j + 1) * size == j * size + size) by (nonlinear_arith);
    }
    let mut r: Vec<MemoryInitializeFinalizeEvent> = Vec::new();
    let mut i: usize = start;
    while i < end
        invariant
            start <= i <= end <= events@.len(),
            r@ =~= events@.subrange(start as int, i as int),
        decreases end - i,
    {
        r.push(events[i]);
        i = i + 1;
    }
    r
}

/// The address of the last of the first `j` chunks, zero if there is none.
fn chunk_addr(events: &Vec<MemoryInitializeFinalizeEvent>, size: usize, j: usize) -> (r: u32)
    ensures
        r == addr_before(events@, j * size),
{
    let n: u128 = events.len() as u128;
    proof {
        assert(j * size <= usize::MAX * usize::MAX && 0 <= j * size) by (nonlinear_arith)
            requires
                j <= usize::MAX,
                size <= usize::MAX,
        ;
    }
    let upto: u128 = (j as u128) * (size as u128);
    let c: usize = if upto < n { upto as usize } else { events.len() };
    if c == 0 {
        0
    } else {
        events[c - 1].addr
    }
}

/// Create a shard that holds the `j`th chunk of memory events and nothing else.
fn memory_record(
    program: &Arc<Program>,
    init: &Vec<MemoryInitializeFinalizeEvent>,
    finalize: &Vec<MemoryInitializeFinalizeEvent>,
    size: usize,
    j: usize,
) -> (r: ExecutionRecord)
    requires
        size > 0,
        j < usize::MAX,
    ensures
        memory_shard(r, *program, init@, finalize@, size as int, j as int),
{
    let mut record: ExecutionRecord = ExecutionRecord::new(program.clone());
    record.global_memory_initialize_events = copy_chunk(init, size, j);
    record.global_memory_finalize_events = copy_chunk(finalize, size, j);
    let mut p: PublicValues = record.public_values;
    p.previous_init_addr = chunk_addr(init, size, j);
    p.last_init_addr = chunk_addr(init, size, j + 1);
    p.previous_finalize_addr = chunk_addr(finalize, size, j);
    p.last_finalize_addr = chunk_addr(finalize, size, j + 1);
    record.public_values = p;
    record
}

/// A copy of a list.
fn copy_events(events: &Vec<MemoryInitializeFinalizeEvent>) -> (r: Vec<MemoryInitializeFinalizeEvent>)
    ensures
        r@ == events@,
{
    let mut r: Vec<MemoryInitializeFinalizeEvent> = Vec::new();
    let mut i: usize = 0;
    while i < events.len()
        invariant
            i <= events@.len(),
            r@ =~= events@.take(i as int),
        decreases events@.len() - i,
    {
        r.push(events[i]);
        i = i + 1;
    }
    r
}

/// The number of chunks of the longer of two lists.
fn count_rounds(
    init: &Vec<MemoryInitializeFinalizeEvent>,
    finalize: &Vec<MemoryInitializeFinalizeEvent>,
    size: usize,
) -> (r: usize)
    requires
        size > 0,
    ensures
        r == rounds(init@, finalize@, size as int),
        r == 0 || r <= init@.len() || r <= finalize@.len(),
{
    let n: usize = if init.len() < finalize.len() { finalize.len() } else { init.len() };
    proof {
        assert((n + size - 1) / (size as int) <= n) by (nonlinear_arith)
            requires
                size > 0,
                n >= 0,
        ;
        assert((n + size - 1) / (size as int) >= 0) by (nonlinear_arith)
            requires
                size > 0,
                n >= 0,
        ;
    }
    let r: u128 = ((n as u128) + (size as u128) - 1) / (size as u128);
    r as usize
}

/// What packing all memory events into one record leaves there.
pub open spec fn packed(
    now: ExecutionRecord,
    was: ExecutionRecord,
    init: Seq<MemoryInitializeFinalizeEvent>,
    finalize: Seq<MemoryInitializeFinalizeEvent>,
    size: int,
) -> bool {
    let n = rounds(init, finalize, size);
    &&& now.same_but_deferred(&was)
    &&& now.precompile_events == was.precompile_events
    &&& now.global_memory_initialize_events@ == was.global_memory_initialize_events@ + init
    &&& now.global_memory_finalize_events@ == was.global_memory_finalize_events@ + finalize
    &&& n <= 0 ==> now.public_values == was.public_values
    &&& n > 0 ==> links(now.public_values, init, finalize, size, n - 1) && now.public_values == (
    PublicValues {
        previous_init_addr: now.public_values.previous_init_addr,
        last_init_addr: now.public_values.last_init_addr,
        previous_finalize_addr: now.public_values.previous_finalize_addr,
        last_finalize_addr: now.public_values.last_finalize_addr,
        ..was.public_values
    })
}

/// Packs all memory events into a record.
fn pack(
    record: &mut ExecutionRecord,
    init: &Vec<MemoryInitializeFinalizeEvent>,
    finalize: &Vec<MemoryInitializeFinalizeEvent>,
    size: usize,
)
    requires
        size > 0,
    ensures
        packed(*final(record), *old(record), init@, finalize@, size as int),
{
    let mut more_init: Vec<MemoryInitializeFinalizeEvent> = copy_events(init);
    let mut more_finalize: Vec<MemoryInitializeFinalizeEvent> = copy_events(finalize);
    record.global_memory_initialize_events.append(&mut more_init);
    record.global_memory_finalize_events.append(&mut more_finalize);
    let n: usize = count_rounds(init, finalize, size);
    if n > 0 {
        let mut p: PublicValues = record.public_values;
        p.previous_init_addr = chunk_addr(init, size, n - 1);
        p.last_init_addr = chunk_addr(init, size, n);
        p.previous_finalize_addr = chunk_addr(finalize, size, n - 1);
        p.last_finalize_addr = chunk_addr(finalize, size, n);
        record.public_values = p;
    }
}

impl SplitOpts {
    /// The threshold of a system call.
    pub fn threshold(&self, code: SyscallCode) -> (r: usize)
        ensures
            r == threshold_of(code, *self),
    {
        match code {
            SyscallCode::KECCAK_SPONGE => self.keccak,
            SyscallCode::SHA_EXTEND => self.sha_extend,
            SyscallCode::SHA_COMPRESS => self.sha_compress,
            _ => self.deferred,
        }
    }

    /// Every threshold on a number of events admits at least one event.
    pub open spec fn positive(self) -> bool {
        &&& self.deferred > 0
        &&& self.sha_extend > 0
        &&& self.sha_compress > 0
    }
}

/// Records carry what a list says.
pub open spec fn carry_all(
    records: Seq<ExecutionRecord>,
    program: Arc<Program>,
    list: Seq<(SyscallCode, Seq<(SyscallEvent, PrecompileEvent)>)>,
) -> bool {
    &&& records.len() == list.len()
    &&& forall|k: int|
        0 <= k < list.len() ==> carries(
            #[trigger] records[k],
            program,
            list[k].0,
            list[k].1,
        )
}

impl ExecutionRecord {
    /// Splits the deferred events of one system call off into shards.
    fn split_group(
        &mut self,
        shards: &mut Vec<ExecutionRecord>,
        code: SyscallCode,
        events: EventList,
        last: bool,
        opts: SplitOpts,
    )
        requires
            opts.positive(),
            old(self).precompile_events.wf(),
            old(self).precompile_events.events(code).len() == 0,
            !old(self).precompile_events.has(code),
        ensures
            final(self).precompile_events.wf(),
            *final(self) == (ExecutionRecord {
                precompile_events: final(self).precompile_events,
                ..*old(self)
            }),
            final(self).precompile_events.events(code) == kept(events@, code, opts, last),
            forall|c: SyscallCode|
                c != code ==> #[trigger] final(self).precompile_events.events(c) == old(
                    self,
                ).precompile_events.events(c),
            forall|c: SyscallCode|
                c != code ==> #[trigger] final(self).precompile_events.has(c) == old(
                    self,
                ).precompile_events.has(c),
            final(shards)@.len() == old(shards)@.len() + group_shards((code, events), opts, last).len(),
            final(shards)@.take(old(shards)@.len() as int) == old(shards)@,
            carry_all(
                final(shards)@.skip(old(shards)@.len() as int),
                old(self).program,
                group_shards((code, events), opts, last),
            ),
    {
        let ghost events0 = events@;
        let ghost start = shards@;
        let threshold: usize = opts.threshold(code);
        let (mut pieces, rest) = cut_list(code, events, threshold);
        let ghost all = pieces@;
        let ghost cuts = cut(code, events0, threshold as nat).0;
        let mut i: usize = 0;
        let count: usize = pieces.len();
        while i < count
            invariant
                i <= count,
                count == pieces@.len(),
                count == cuts.len(),
                self.program == old(self).program,
                *self == *old(self),
                forall|k: int| i <= k < count ==> (#[trigger] pieces@[k])@ == cuts[k],
                shards@.len() == start.len() + i,
                shards@.take(start.len() as int) =~= start,
                forall|k: int|
                    0 <= k < i ==> carries(
                        #[trigger] shards@[start.len() + k],
                        self.program,
                        code,
                        cuts[k],
                    ),
            decreases count - i,
        {
            let mut piece: EventList = Vec::new();
            std::mem::swap(&mut piece, &mut pieces[i]);
            let ghost before = shards@;
            shards.push(piece_record(&self.program, code, piece));
            proof {
                assert forall|k: int| 0 <= k < i + 1 implies carries(
                    #[trigger] shards@[start.len() + k],
                    self.program,
                    code,
                    cuts[k],
                ) by {
                    if k < i {
                        assert(shards@[start.len() + k] == before[start.len() + k]);
                    }
                }
            }
            i = i + 1;
        }
        let ghost shards1 = shards@;
        if rest.len() > 0 {
            if last {
                shards.push(piece_record(&self.program, code, rest));
            } else {
                self.precompile_events.insert(code, rest);
            }
        }
        proof {
            let list = group_shards((code, events), opts, last);
            let tail = shards@.skip(start.len() as int);
            assert(shards@.take(start.len() as int) =~= start);
            assert forall|k: int| 0 <= k < list.len() implies carries(
                #[trigger] tail[k],
                self.program,
                list[k].0,
                list[k].1,
            ) by {
                assert(tail[k] == shards@[start.len() + k]);
                if k < count {
                    assert(shards@[start.len() + k] == shards1[start.len() + k]);
                }
            }
        }
    }

    /// Splits the deferred events into records with a reasonable number of them.
    ///
    /// Full shards of precompiled operations come first. What does not fill a shard waits for the
    /// next time, unless this is the last time. The last time the memory events are sorted by
    /// address and cut into shards too; if there is nothing else and a record to pack them into,
    /// they all go there.
    pub fn split(
        &mut self,
        last: bool,
        last_record: Option<&mut ExecutionRecord>,
        opts: SplitOpts,
    ) -> (r: Vec<ExecutionRecord>)
        requires
            opts.positive(),
            last ==> opts.memory > 0,
            old(self).precompile_events.wf(),
        ensures
            ({
                let groups = old(self).precompile_events.groups@;
                let deferred = deferred_shards(groups, opts, last, groups.len() as int);
                let init = final(self).global_memory_initialize_events@;
                let finalize = final(self).global_memory_finalize_events@;
                let n = if last {
                    rounds(init, finalize, opts.memory as int)
                } else {
                    0
                };
                let pack = last && last_record is Some && deferred.len() == 0;
                &&& final(self).same_but_deferred(old(self))
                &&& final(self).public_values == old(self).public_values
                &&& final(self).precompile_events.wf()
                &&& forall|c: SyscallCode| #[trigger]
                    final(self).precompile_events.events(c) == kept(
                        old(self).precompile_events.events(c),
                        c,
                        opts,
                        last,
                    )
                &&& if last {
                    &&& sorted_from(init, old(self).global_memory_initialize_events@)
                    &&& sorted_from(finalize, old(self).global_memory_finalize_events@)
                } else {
                    &&& init == old(self).global_memory_initialize_events@
                    &&& finalize == old(self).global_memory_finalize_events@
                }
                &&& carry_all(
                    r@.take(deferred.len() as int),
                    old(self).program,
                    deferred,
                )
                &&& r@.len() == deferred.len() + if pack {
                    0
                } else {
                    n
                }
                &&& !pack ==> forall|j: int|
                    0 <= j < n ==> memory_shard(
                        #[trigger] r@[deferred.len() + j],
                        old(self).program,
                        init,
                        finalize,
                        opts.memory as int,
                        j,
                    )
                &&& last_record matches Some(record) ==> if pack {
                    packed(*final(record), *record, init, finalize, opts.memory as int)
                } else {
                    *final(record) == *record
                }
            }),
    {
        let mut shards: Vec<ExecutionRecord> = Vec::new();
        let mut taken: PrecompileEvents = PrecompileEvents::default();
        std::mem::swap(&mut taken, &mut self.precompile_events);
        let ghost groups = taken.groups@;
        let ghost whole = taken;
        let mut i: usize = 0;
        let count: usize = taken.groups.len();
        proof {
            assert forall|c: SyscallCode| !(#[trigger] self.precompile_events.has(c))
                && self.precompile_events.events(c).len() == 0 by {
                self.precompile_events.lemma_absent(c);
            }
        }
        while i < count
            invariant
                i <= count,
                count == groups.len(),
                taken.groups@.len() == groups.len(),
                whole.groups@ == groups,
                whole == old(self).precompile_events,
                whole.wf(),
                opts.positive(),
                forall|k: int| i <= k < count ==> #[trigger] taken.groups@[k] == groups[k],
                self.precompile_events.wf(),
                *self == (ExecutionRecord { precompile_events: self.precompile_events, ..*old(self) }),
                forall|k: int|
                    i <= k < count ==> !self.precompile_events.has((#[trigger] groups[k]).0)
                        && self.precompile_events.events(groups[k].0).len() == 0,
                forall|k: int|
                    0 <= k < i ==> self.precompile_events.events((#[trigger] groups[k]).0) == kept(
                        groups[k].1@,
                        groups[k].0,
                        opts,
                        last,
                    ),
                forall|c: SyscallCode|
                    (forall|k: int| 0 <= k < i ==> (#[trigger] groups[k]).0 != c)
                        ==> (#[trigger] self.precompile_events.events(c)).len() == 0,
                carry_all(shards@, old(self).program, deferred_shards(groups, opts, last, i as int)),
            decreases count - i,
        {
            let mut events: EventList = Vec::new();
            std::mem::swap(&mut events, &mut taken.groups[i].1);
            let code: SyscallCode = taken.groups[i].0;
            let ghost before = *self;
            let ghost earlier = shards@;
            proof {
                assert(groups[i as int] == (code, events));
                assert(!self.precompile_events.has(groups[i as int].0));
            }
            self.split_group(&mut shards, code, events, last, opts);
            proof {
                assert forall|k: int| i + 1 <= k < count implies !self.precompile_events.has(
                    (#[trigger] groups[k]).0,
                ) && self.precompile_events.events(groups[k].0).len() == 0 by {
                    assert(whole.groups@[i as int].0 != whole.groups@[k].0);
                    assert(!before.precompile_events.has(groups[k].0));
                }
                assert forall|k: int| 0 <= k < i + 1 implies self.precompile_events.events(
                    (#[trigger] groups[k]).0,
                ) == kept(groups[k].1@, groups[k].0, opts, last) by {
                    if k < i {
                        assert(whole.groups@[k].0 != whole.groups@[i as int].0);
                    }
                }
                assert forall|c: SyscallCode|
                    (forall|k: int| 0 <= k < i + 1 ==> (#[trigger] groups[k]).0 != c) implies (
                #[trigger] self.precompile_events.events(c)).len() == 0 by {
                    assert(groups[i as int].0 != c);
                    assert(before.precompile_events.events(c).len() == 0);
                }
                let list = deferred_shards(groups, opts, last, i + 1);
                let head = deferred_shards(groups, opts, last, i as int);
                let more = group_shards(groups[i as int], opts, last);
                assert(list == head + more);
                assert forall|k: int| 0 <= k < list.len() implies carries(
                    #[trigger] shards@[k],
                    old(self).program,
                    list[k].0,
                    list[k].1,
                ) by {
                    if k < head.len() {
                        assert(shards@.take(earlier.len() as int)[k] == shards@[k]);
                        assert(earlier[k] == shards@[k]);
                    } else {
                        let t = shards@.skip(earlier.len() as int);
                        assert(t[k - head.len()] == shards@[k]);
                    }
                }
            }
            i = i + 1;
        }
        let ghost deferred = deferred_shards(groups, opts, last, groups.len() as int);
        proof {
            assert forall|c: SyscallCode| #[trigger]
                self.precompile_events.events(c) == kept(whole.events(c), c, opts, last) by {
                whole.lemma_find(c);
                match whole.position(c, whole.groups@.len() as int) {
                    Some(k) => {
                        assert(groups[k].0 == c);
                    },
                    None => {
                        assert(forall|k: int| 0 <= k < count ==> (#[trigger] groups[k]).0 != c);
                        assert(self.precompile_events.events(c).len() == 0);
                        assert(self.precompile_events.events(c) =~= kept(
                            whole.events(c),
                            c,
                            opts,
                            last,
                        ));
                    },
                }
            }
            assert(shards@.take(deferred.len() as int) =~= shards@);
        }
        if !last {
            return shards;
        }
        sort_by_addr(&mut self.global_memory_initialize_events);
        sort_by_addr(&mut self.global_memory_finalize_events);
        if shards.len() == 0 {
            if let Some(record) = last_record {
                pack(
                    record,
                    &self.global_memory_initialize_events,
                    &self.global_memory_finalize_events,
                    opts.memory,
                );
                return shards;
            }
        }
        let n: usize = count_rounds(
            &self.global_memory_initialize_events,
            &self.global_memory_finalize_events,
            opts.memory,
        );
        let ghost first = shards@;
        let mut j: usize = 0;
        while j < n
            invariant
                j <= n,
                n <= self.global_memory_initialize_events@.len() || n
                    <= self.global_memory_finalize_events@.len() || n == 0,
                opts.memory > 0,
                self.program == old(self).program,
                shards@.len() == first.len() + j,
                shards@.take(first.len() as int) =~= first,
                forall|k: int|
                    0 <= k < j ==> memory_shard(
                        #[trigger] shards@[first.len() + k],
                        self.program,
                        self.global_memory_initialize_events@,
                        self.global_memory_finalize_events@,
                        opts.memory as int,
                        k,
                    ),
            decreases n - j,
        {
            let ghost earlier = shards@;
            shards.push(
                memory_record(
                    &self.program,
                    &self.global_memory_initialize_events,
                    &self.global_memory_finalize_events,
                    opts.memory,
                    j,
                ),
            );
            proof {
                assert forall|k: int| 0 <= k < j + 1 implies memory_shard(
                    #[trigger] shards@[first.len() + k],
                    self.program,
                    self.global_memory_initialize_events@,
                    self.global_memory_finalize_events@,
                    opts.memory as int,
                    k,
                ) by {
                    if k < j {
                        assert(shards@[first.len() + k] == earlier[first.len() + k]);
                    }
                }
            }
            j = j + 1;
        }
        shards
    }
}

/// The events of every operation but the sponge are cut into shards of exactly the threshold, and
/// fewer than the threshold are left over.
pub proof fn counted_shards_have_the_threshold(
    code: SyscallCode,
    events: Seq<(SyscallEvent, PrecompileEvent)>,
    threshold: nat,
    i: int,
)
    requires
        code != SyscallCode::KECCAK_SPONGE,
        threshold > 0,
    ensures
        cut(code, events, threshold).1.len() < threshold,
        0 <= i < cut(code, events, threshold).0.len() ==> cut(code, events, threshold).0[i].len()
            == threshold,
    decreases events.len(),
{
    if events.len() >= threshold {
        let more = events.skip(threshold as int);
        counted_shards_have_the_threshold(code, more, threshold, i - 1);
        let pieces = cut(code, events, threshold).0;
        if 0 < i < pieces.len() {
            assert(pieces[i] == cut(code, more, threshold).0[i - 1]);
        }
    }
}

/// A shard of the sponge is closed only when the event behind it would have exceeded the threshold:
/// the blocks of the shard and of that event together are more.
pub proof fn sponge_shards_are_closed_when_full(
    events: Seq<(SyscallEvent, PrecompileEvent)>,
    threshold: nat,
    k: int,
)
    requires
        0 <= k <= events.len(),
    ensures
        ({
            let n = sponge_piece(events, threshold, k);
            &&& k <= n <= events.len()
            &&& n < events.len() ==> n >= 1 && events[n].1 is KeccakSponge && total_blocks(
                events,
                n + 1,
            ) > threshold
            &&& forall|m: int|
                k <= m < n && m >= 1 && (#[trigger] events[m]).1 is KeccakSponge ==> total_blocks(
                    events,
                    m + 1,
                ) <= threshold
        }),
    decreases events.len() - k,
{
    if k < events.len() {
        if !(k >= 1 && events[k].1 is KeccakSponge && total_blocks(events, k) + blocks(events[k])
            > threshold) {
            sponge_shards_are_closed_when_full(events, threshold, k + 1);
        }
    }
}

/// What a group of events contributes, shard after shard, and what it keeps for the next time are
/// together the group's events in their order, and every shard is filed under the group's call.
pub proof fn the_shards_of_a_group_hold_its_events(
    group: (SyscallCode, EventList),
    opts: SplitOpts,
    last: bool,
)
    ensures
        ({
            let shards = group_shards(group, opts, last);
            &&& joined(
                shards.map_values(
                    |s: (SyscallCode, Seq<(SyscallEvent, PrecompileEvent)>)| s.1,
                ),
            ) + kept(group.1@, group.0, opts, last) == group.1@
            &&& forall|i: int| 0 <= i < shards.len() ==> (#[trigger] shards[i]).0 == group.0
            &&& last ==> kept(group.1@, group.0, opts, last).len() == 0
        }),
{
    let events = group.1@;
    let threshold = threshold_of(group.0, opts);
    let (pieces, rest) = cut(group.0, events, threshold);
    let shards = group_shards(group, opts, last);
    let lists = shards.map_values(|s: (SyscallCode, Seq<(SyscallEvent, PrecompileEvent)>)| s.1);
    cutting_keeps_every_event(group.0, events, threshold);
    if last && rest.len() > 0 {
        assert(lists =~= pieces.push(rest));
        lemma_joined_push(pieces, rest);
        assert(joined(lists) + Seq::<(SyscallEvent, PrecompileEvent)>::empty() =~= joined(pieces)
            + rest);
    } else {
        assert(lists =~= pieces);
        if last {
            assert(rest =~= Seq::empty());
        }
    }
}

proof fn lemma_joined_push(
    pieces: Seq<Seq<(SyscallEvent, PrecompileEvent)>>,
    last: Seq<(SyscallEvent, PrecompileEvent)>,
)
    ensures
        joined(pieces.push(last)) == joined(pieces) + last,
    decreases pieces.len(),
{
    reveal_with_fuel(joined, 2);
    if pieces.len() == 0 {
        assert(pieces.push(last).skip(1) =~= Seq::empty());
        assert(joined(pieces.push(last)) =~= joined(pieces) + last);
    } else {
        lemma_joined_push(pieces.skip(1), last);
        assert(pieces.push(last).skip(1) =~= pieces.skip(1).push(last));
        assert(joined(pieces.push(last)) =~= joined(pieces) + last);
    }
}

/// The first `n` chunks of a list, one behind the other.
pub open spec fn chunks_joined(
    events: Seq<MemoryInitializeFinalizeEvent>,
    size: int,
    n: nat,
) -> Seq<MemoryInitializeFinalizeEvent>
    decreases n,
{
    if n == 0 {
        Seq::empty()
    } else {
        chunks_joined(events, size, (n - 1) as nat) + chunk(events, size, n - 1)
    }
}

/// The chunks of memory events, as many as there are shards, are the whole lists one behind the
/// other, and none is longer than the threshold.
pub proof fn memory_shards_hold_every_event(
    init: Seq<MemoryInitializeFinalizeEvent>,
    finalize: Seq<MemoryInitializeFinalizeEvent>,
    size: int,
    j: int,
)
    requires
        size > 0,
        j >= 0,
    ensures
        chunks_joined(init, size, rounds(init, finalize, size) as nat) == init,
        chunks_joined(finalize, size, rounds(init, finalize, size) as nat) == finalize,
        chunk(init, size, j).len() <= size,
        chunk(finalize, size, j).len() <= size,
{
    let n = rounds(init, finalize, size);
    let longest = if init.len() < finalize.len() {
        finalize.len() as int
    } else {
        init.len() as int
    };
    assert(n * size >= longest && n >= 0) by (nonlinear_arith)
        requires
            n == (longest + size - 1) / size,
            size > 0,
            longest >= 0,
    ;
    lemma_chunks(init, size, n as nat);
    lemma_chunks(finalize, size, n as nat);
    assert(init.take(init.len() as int) =~= init);
    assert(finalize.take(finalize.len() as int) =~= finalize);
    assert((j + 1) * size == j * size + size && j * size >= 0) by (nonlinear_arith)
        requires
            size > 0,
            j >= 0,
    ;
}

proof fn lemma_chunks(events: Seq<MemoryInitializeFinalizeEvent>, size: int, n: nat)
    requires
        size > 0,
    ensures
        chunks_joined(events, size, n) == events.take(
            if n * size < events.len() {
                n * size
            } else {
                events.len() as int
            },
        ),
    decreases n,
{
    if n > 0 {
        let m = (n - 1) as nat;
        lemma_chunks(events, size, m);
        assert(n * size == m * size + size && m * size >= 0) by (nonlinear_arith)
            requires
                n == m + 1,
                size > 0,
        ;
        assert((m + 1) * size == n * size);
        assert(chunks_joined(events, size, n) =~= events.take(
            if n * size < events.len() {
                n * size
            } else {
                events.len() as int
            },
        ));
    } else {
        assert(0 * size == 0) by (nonlinear_arith);
        assert(chunks_joined(events, size, 0) =~= events.take(0));
    }
}

/// The addresses that a shard's public values name are those of its own last events: the last one
/// that it initializes and finalizes, or where the shard before it ended if it has none.
pub proof fn public_addresses_are_those_of_the_last_events(
    p: PublicValues,
    init: Seq<MemoryInitializeFinalizeEvent>,
    finalize: Seq<MemoryInitializeFinalizeEvent>,
    size: int,
    j: int,
)
    requires
        size > 0,
        j >= 0,
        links(p, init, finalize, size, j),
    ensures
        p.last_init_addr == if chunk(init, size, j).len() > 0 {
            chunk(init, size, j).last().addr
        } else {
            p.previous_init_addr
        },
        p.last_finalize_addr == if chunk(finalize, size, j).len() > 0 {
            chunk(finalize, size, j).last().addr
        } else {
            p.previous_finalize_addr
        },
{
    assert((j + 1) * size == j * size + size && j * size >= 0) by (nonlinear_arith)
        requires
            size > 0,
            j >= 0,
    ;
}

/// The operations that have a threshold of their own are cut by it, all others but the sponge by the
/// common one: every shard but one that holds the rest has exactly so many events, and fewer are
/// kept.
pub proof fn each_call_is_cut_by_its_own_threshold(
    group: (SyscallCode, EventList),
    opts: SplitOpts,
    last: bool,
    i: int,
)
    requires
        opts.positive(),
        group.0 != SyscallCode::KECCAK_SPONGE,
        0 <= i < group_shards(group, opts, last).len(),
    ensures
        ({
            let size = if group.0 == SyscallCode::SHA_EXTEND {
                opts.sha_extend
            } else if group.0 == SyscallCode::SHA_COMPRESS {
                opts.sha_compress
            } else {
                opts.deferred
            };
            let shards = group_shards(group, opts, last);
            &&& shards[i].1.len() == size || last && i == shards.len() - 1 && 0 < shards[i].1.len()
                < size
            &&& kept(group.1@, group.0, opts, last).len() < size
        }),
{
    let threshold = threshold_of(group.0, opts);
    counted_shards_have_the_threshold(group.0, group.1@, threshold, i);
}

/// Memory events that are packed into a record come behind its own, and the public values name the
/// addresses of the last ones.
pub proof fn packed_events_end_the_address_chains(
    now: ExecutionRecord,
    was: ExecutionRecord,
    init: Seq<MemoryInitializeFinalizeEvent>,
    finalize: Seq<MemoryInitializeFinalizeEvent>,
    size: int,
)
    requires
        size > 0,
        packed(now, was, init, finalize, size),
    ensures
        init.len() > 0 ==> now.public_values.last_init_addr == init.last().addr
            && now.global_memory_initialize_events@.last() == init.last(),
        finalize.len() > 0 ==> now.public_values.last_finalize_addr == finalize.last().addr
            && now.global_memory_finalize_events@.last() == finalize.last(),
        init.len() <= size && finalize.len() <= size && init.len() + finalize.len() > 0
            ==> now.public_values.previous_init_addr == 0
            && now.public_values.previous_finalize_addr == 0,
        init.len() == 0 && finalize.len() == 0 ==> now.public_values == was.public_values,
        now.public_values.start_pc == was.public_values.start_pc,
        now.public_values.next_pc == was.public_values.next_pc,
{
    let n = rounds(init, finalize, size);
    let longest = if init.len() < finalize.len() {
        finalize.len() as int
    } else {
        init.len() as int
    };
    assert(n * size >= longest && n >= 0 && (longest > 0 ==> n > 0) && (longest == 0 ==> n == 0) && (
    0 < longest <= size ==> n == 1)) by (nonlinear_arith)
        requires
            n == (longest + size - 1) / size,
            size > 0,
            longest >= 0,
    ;
    assert((n - 1) * size >= 0 || n == 0) by (nonlinear_arith)
        requires
            n >= 0,
            size > 0,
    ;
    if n == 1 {
        assert(0 * size == 0);
    }
}

proof fn lemma_blocks_of_prefix(events: Seq<(SyscallEvent, PrecompileEvent)>, n: int, k: int)
    requires
        0 <= k <= n <= events.len(),
    ensures
        total_blocks(events.take(n), k) == total_blocks(events, k),
    decreases k,
{
    if k > 0 {
        lemma_blocks_of_prefix(events, n, k - 1);
    }
}

/// The sponge is cut by its own threshold, which counts the blocks that are absorbed: no shard and no
/// rest has more, unless it is a single event.
pub proof fn sponge_shards_stay_within_their_threshold(
    group: (SyscallCode, EventList),
    opts: SplitOpts,
    last: bool,
    i: int,
)
    requires
        group.0 == SyscallCode::KECCAK_SPONGE,
        forall|k: int| 0 <= k < group.1@.len() ==> (#[trigger] group.1@[k]).1 is KeccakSponge,
        0 <= i < group_shards(group, opts, last).len(),
    ensures
        ({
            let shard = group_shards(group, opts, last)[i].1;
            let rest = kept(group.1@, group.0, opts, last);
            &&& shard.len() == 1 || shard.len() > 1 && total_blocks(shard, shard.len() as int)
                <= opts.keccak
            &&& rest.len() <= 1 || total_blocks(rest, rest.len() as int) <= opts.keccak
        }),
{
    lemma_sponge_cut(group.1@, opts.keccak as nat, i);
}

proof fn lemma_sponge_cut(events: Seq<(SyscallEvent, PrecompileEvent)>, threshold: nat, i: int)
    requires
        forall|k: int| 0 <= k < events.len() ==> (#[trigger] events[k]).1 is KeccakSponge,
    ensures
        ({
            let (pieces, rest) = cut(SyscallCode::KECCAK_SPONGE, events, threshold);
            &&& 0 <= i < pieces.len() ==> pieces[i].len() == 1 || pieces[i].len() > 1
                && total_blocks(pieces[i], pieces[i].len() as int) <= threshold
            &&& rest.len() <= 1 || total_blocks(rest, rest.len() as int) <= threshold
        }),
    decreases events.len(),
{
    let code = SyscallCode::KECCAK_SPONGE;
    let k = sponge_piece(events, threshold, 0);
    sponge_shards_are_closed_when_full(events, threshold, 0);
    if k >= 2 {
        assert(events[k - 1].1 is KeccakSponge);
    }
    if k < events.len() {
        let more = events.skip(k);
        let (pieces, rest) = cut(code, events, threshold);
        assert forall|j: int| 0 <= j < more.len() implies (#[trigger] more[j]).1 is KeccakSponge by {
            assert(events[k + j].1 is KeccakSponge);
        }
        lemma_sponge_cut(more, threshold, i - 1);
        lemma_blocks_of_prefix(events, k, k);
        assert(pieces[0] == events.take(k));
        if 0 < i < pieces.len() {
            assert(pieces[i] == cut(code, more, threshold).0[i - 1]);
        }
    }
}

} // verus!
