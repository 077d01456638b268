//! The words that a whole run initializes and finalizes.
use std::collections::BTreeMap;

use vstd::prelude::*;

use crate::events::{MemoryInitializeFinalizeEvent, MemoryRecord};
use crate::memory::{self, MaybeCowMemory, PagedMemory};

verus! {

/// A list of words that names exactly the words of a memory, in increasing order of address.
pub open spec fn lists_records(items: Seq<(u32, MemoryRecord)>, mem: Map<int, MemoryRecord>) -> bool {
    &&& memory::lists_keys(items.map_values(|x: (u32, MemoryRecord)| x.0), mem)
    &&& forall|i: int| 0 <= i < items.len() ==> (#[trigger] items[i]).1 == mem[memory::slot(items[i].0)]
}

/// The words of a memory, in increasing order of address.
pub fn list_records(mem: &PagedMemory<MemoryRecord>) -> (r: Vec<(u32, MemoryRecord)>)
    requires
        mem.wf(),
    ensures
        lists_records(r@, mem@),
{
    let keys: Vec<u32> = mem.keys();
    let mut items: Vec<(u32, MemoryRecord)> = Vec::new();
    let mut i: usize = 0;
    while i < keys.len()
        invariant
            i <= keys@.len(),
            mem.wf(),
            memory::lists_keys(keys@, mem@),
            items@.len() == i,
            forall|j: int|
                0 <= j < i ==> (#[trigger] items@[j]) == (keys@[j], mem@[memory::slot(keys@[j])]),
        decreases keys@.len() - i,
    {
        let addr: u32 = keys[i];
        proof {
            assert(mem@.contains_key(memory::slot(addr)));
        }
        if let Some(record) = mem.get(addr) {
            items.push((addr, *record));
        }
        i = i + 1;
    }
    proof {
        assert(items@.map_values(|x: (u32, MemoryRecord)| x.0) =~= keys@);
    }
    items
}

/// The words of a memory that is not forked, in increasing order of address.
pub fn list_unforked(mem: &MaybeCowMemory<MemoryRecord>) -> (r: Option<Vec<(u32, MemoryRecord)>>)
    requires
        mem.wf(),
    ensures
        r is Some == mem.saved() is None,
        r matches Some(items) ==> lists_records(items@, mem@),
{
    match mem {
        MaybeCowMemory::Owned(memory) => Some(list_records(memory)),
        MaybeCowMemory::Cow { .. } => None,
    }
}

/// The first `n` words that were accessed: those whose timestamp is not zero.
pub open spec fn accessed(items: Seq<(u32, MemoryRecord)>, n: nat) -> Seq<(u32, MemoryRecord)>
    decreases n,
{
    if n == 0 {
        Seq::empty()
    } else {
        let before = accessed(items, (n - 1) as nat);
        if items[n - 1].1.timestamp != 0 {
            before.push(items[n - 1])
        } else {
            before
        }
    }
}

/// The words that were accessed.
pub fn accessed_records(items: &Vec<(u32, MemoryRecord)>) -> (r: Vec<(u32, MemoryRecord)>)
    ensures
        r@ == accessed(items@, items@.len()),
{
    let mut r: Vec<(u32, MemoryRecord)> = Vec::new();
    let mut i: usize = 0;
    while i < items.len()
        invariant
            i <= items@.len(),
            r@ == accessed(items@, i as nat),
        decreases items@.len() - i,
    {
        if items[i].1.timestamp != 0 {
            r.push(items[i]);
        }
        i = i + 1;
    }
    r
}

/// The value that a word has at the start of a run if the image does not say.
pub open spec fn seed(seeds: Map<int, u32>, addr: u32) -> u32 {
    if seeds.contains_key(memory::slot(addr)) {
        seeds[memory::slot(addr)]
    } else {
        0
    }
}

/// The events of the words among the first `n` that the run initializes: all but word zero and
/// those of the image.
pub open spec fn initialized(
    items: Seq<(u32, MemoryRecord)>,
    seeds: Map<int, u32>,
    image: Map<u32, u32>,
    n: nat,
) -> Seq<MemoryInitializeFinalizeEvent>
    decreases n,
{
    if n == 0 {
        Seq::empty()
    } else {
        let before = initialized(items, seeds, image, (n - 1) as nat);
        let addr = items[n - 1].0;
        if addr != 0 && !image.contains_key(addr) {
            before.push(
                MemoryInitializeFinalizeEvent { addr, value: seed(seeds, addr), timestamp: 0 },
            )
        } else {
            before
        }
    }
}

/// The events of the words among the first `n` that the run finalizes: all but word zero.
pub open spec fn finalized(items: Seq<(u32, MemoryRecord)>, n: nat) -> Seq<
    MemoryInitializeFinalizeEvent,
>
    decreases n,
{
    if n == 0 {
        Seq::empty()
    } else {
        let before = finalized(items, (n - 1) as nat);
        let (addr, record) = items[n - 1];
        if addr != 0 {
            before.push(
                MemoryInitializeFinalizeEvent {
                    addr,
                    value: record.value,
                    timestamp: record.timestamp,
                },
            )
        } else {
            before
        }
    }
}

/// Adds the events of the words that a run initializes and finalizes.
pub fn add_memory_events(
    items: &Vec<(u32, MemoryRecord)>,
    seeds: &PagedMemory<u32>,
    image: &BTreeMap<u32, u32>,
    initialize: &mut Vec<MemoryInitializeFinalizeEvent>,
    finalize: &mut Vec<MemoryInitializeFinalizeEvent>,
)
    requires
        seeds.wf(),
        forall|i: int| 0 <= i < items@.len() ==> memory::addressable((#[trigger] items@[i]).0),
    ensures
        final(initialize)@ == old(initialize)@ + initialized(
            items@,
            seeds@,
            image@,
            items@.len(),
        ),
        final(finalize)@ == old(finalize)@ + finalized(items@, items@.len()),
{
    broadcast use vstd::std_specs::btree::group_btree_axioms;

    let mut i: usize = 0;
    while i < items.len()
        invariant
            i <= items@.len(),
            seeds.wf(),
            forall|j: int| 0 <= j < items@.len() ==> memory::addressable((#[trigger] items@[j]).0),
            initialize@ =~= old(initialize)@ + initialized(items@, seeds@, image@, i as nat),
            finalize@ =~= old(finalize)@ + finalized(items@, i as nat),
        decreases items@.len() - i,
    {
        let (addr, record) = items[i];
        proof {
            assert(memory::addressable(items@[i as int].0));
        }
        if addr != 0 {
            if image.get(&addr).is_none() {
                let value: u32 = match seeds.get(addr) {
                    Some(v) => *v,
                    None => 0,
                };
                initialize.push(MemoryInitializeFinalizeEvent::initialize(addr, value));
            }
            finalize.push(MemoryInitializeFinalizeEvent::finalize_from_record(addr, &record));
        }
        i = i + 1;
    }
}

/// Every word that the run finalizes and that the image does not hold is initialized too, so a
/// run never finalizes a word that has no start.
pub proof fn every_finalized_word_has_a_start(
    items: Seq<(u32, MemoryRecord)>,
    seeds: Map<int, u32>,
    image: Map<u32, u32>,
    n: nat,
    k: int,
)
    requires
        n <= items.len(),
        0 <= k < finalized(items, n).len(),
    ensures
        image.contains_key(finalized(items, n)[k].addr) || exists|j: int|
            0 <= j < initialized(items, seeds, image, n).len() && (#[trigger] initialized(
                items,
                seeds,
                image,
                n,
            )[j]).addr == finalized(items, n)[k].addr,
    decreases n,
{
    if n > 0 {
        let m = (n - 1) as nat;
        let fins = finalized(items, m);
        let inits = initialized(items, seeds, image, m);
        let all = initialized(items, seeds, image, n);
        if k < fins.len() {
            every_finalized_word_has_a_start(items, seeds, image, m, k);
            if !image.contains_key(fins[k].addr) {
                let j = choose|j: int|
                    0 <= j < inits.len() && (#[trigger] inits[j]).addr == fins[k].addr;
                assert(all[j] == inits[j]);
            }
        } else if !image.contains_key(items[n - 1].0) {
            assert(all[inits.len() as int].addr == items[n - 1].0);
        }
    }
}

/// The clock ticks of the first `n` shards, given the clock at the end of each.
pub open spec fn ticks(ends: Seq<u32>, n: nat) -> nat
    decreases n,
{
    if n == 0 {
        0
    } else {
        ticks(ends, (n - 1) as nat) + ends[n - 1] as nat
    }
}

/// When an access was made, counted in clock ticks from the start of the run: shards are counted
/// from one, and the clock starts anew in each of them.
pub open spec fn run_time(ends: Seq<u32>, shard: u32, clk: u32) -> nat {
    let before = if shard == 0 {
        0
    } else if shard - 1 < ends.len() {
        (shard - 1) as nat
    } else {
        ends.len()
    };
    ticks(ends, before) + clk as nat
}

proof fn lemma_ticks_bound(ends: Seq<u32>, n: nat)
    requires
        n <= ends.len(),
    ensures
        ticks(ends, n) <= n * 0xffff_ffff,
    decreases n,
{
    if n > 0 {
        lemma_ticks_bound(ends, (n - 1) as nat);
    }
}

/// When an access was made, counted in clock ticks from the start of the run.
pub fn run_timestamp(ends: &Vec<u32>, shard: u32, clk: u32) -> (r: u64)
    ensures
        r == run_time(ends@, shard, clk),
{
    let mut total: u64 = 0;
    let mut i: usize = 0;
    while i < ends.len() && (i as u64) + 1 < shard as u64
        invariant
            i <= ends@.len(),
            i as u64 == 0 || i < shard,
            i <= 0xffff_fffe,
            total == ticks(ends@, i as nat),
        decreases ends@.len() - i,
    {
        proof {
            lemma_ticks_bound(ends@, i as nat);
            lemma_ticks_bound(ends@, (i + 1) as nat);
        }
        total = total + ends[i] as u64;
        i = i + 1;
    }
    proof {
        lemma_ticks_bound(ends@, i as nat);
    }
    total + clk as u64
}

/// Time goes on across shards: a shard starts when the one before it ends, an access of a shard lies
/// between its start and its end, and a later clock of the same shard is a later time by as much.
pub proof fn time_goes_on_across_shards(ends: Seq<u32>, shard: u32, clk: u32, later: u32)
    requires
        1 <= shard <= ends.len(),
        shard < u32::MAX,
        clk <= later <= ends[shard - 1],
    ensures
        run_time(ends, 1, 0) == 0,
        run_time(ends, (shard + 1) as u32, 0) == run_time(ends, shard, ends[shard - 1]),
        run_time(ends, shard, later) - run_time(ends, shard, clk) == later - clk,
        run_time(ends, shard, 0) <= run_time(ends, shard, clk) <= run_time(
            ends,
            (shard + 1) as u32,
            0,
        ),
{
    assert(ticks(ends, shard as nat) == ticks(ends, (shard - 1) as nat) + ends[shard - 1]);
    assert(ticks(ends, 0) == 0);
}

/// An access of a later shard is later than one of an earlier shard that lies before its shard's
/// end.
pub proof fn later_shards_come_later(ends: Seq<u32>, first: u32, clk: u32, second: u32, other: u32)
    requires
        1 <= first < second <= ends.len() + 1,
        clk < ends[first - 1],
    ensures
        run_time(ends, first, clk) < run_time(ends, second, other),
{
    lemma_ticks_grow(ends, first as nat, (second - 1) as nat);
    assert(ticks(ends, first as nat) == ticks(ends, (first - 1) as nat) + ends[first - 1]);
}

proof fn lemma_ticks_grow(ends: Seq<u32>, m: nat, n: nat)
    requires
        m <= n,
    ensures
        ticks(ends, m) <= ticks(ends, n),
    decreases n,
{
    if m < n {
        lemma_ticks_grow(ends, m, (n - 1) as nat);
    }
}

/// A register or word that was accessed: what it holds, and the shard and the clock of its last
/// access.
#[derive(Clone, Copy, Debug, PartialEq, Eq, Structural)]
pub struct Touched {
    pub addr: u32,
    pub value: u32,
    pub shard: u32,
    pub clk: u32,
}

/// The records of the first `n` of the given places that have an address.
pub open spec fn touched_records(touched: Seq<Touched>, ends: Seq<u32>, n: nat) -> Seq<
    (u32, MemoryRecord),
>
    decreases n,
{
    if n == 0 {
        Seq::empty()
    } else {
        let before = touched_records(touched, ends, (n - 1) as nat);
        let t = touched[n - 1];
        if memory::addressable(t.addr) {
            before.push(
                (
                    t.addr,
                    MemoryRecord {
                        value: t.value,
                        timestamp: run_time(ends, t.shard, t.clk) as u64,
                    },
                ),
            )
        } else {
            before
        }
    }
}

/// Adds the events of the given places, which the run initializes and finalizes.
pub fn add_touched_events(
    touched: &Vec<Touched>,
    ends: &Vec<u32>,
    image: &BTreeMap<u32, u32>,
    initialize: &mut Vec<MemoryInitializeFinalizeEvent>,
    finalize: &mut Vec<MemoryInitializeFinalizeEvent>,
)
    ensures
        ({
            let items = touched_records(touched@, ends@, touched@.len());
            &&& final(initialize)@ == old(initialize)@ + initialized(
                items,
                Map::empty(),
                image@,
                items.len(),
            )
            &&& final(finalize)@ == old(finalize)@ + finalized(items, items.len())
        }),
{
    let mut items: Vec<(u32, MemoryRecord)> = Vec::new();
    let mut i: usize = 0;
    while i < touched.len()
        invariant
            i <= touched@.len(),
            items@ == touched_records(touched@, ends@, i as nat),
            forall|j: int|
                0 <= j < items@.len() ==> memory::addressable((#[trigger] items@[j]).0),
        decreases touched@.len() - i,
    {
        let t: Touched = touched[i];
        if memory::is_addressable(t.addr) {
            let timestamp: u64 = run_timestamp(ends, t.shard, t.clk);
            items.push((t.addr, MemoryRecord { value: t.value, timestamp }));
        }
        i = i + 1;
    }
    let seeds: PagedMemory<u32> = PagedMemory::new_preallocated();
    add_memory_events(&items, &seeds, image, initialize, finalize);
}

/// The accessed words are those of the listed ones whose timestamp is not zero, each of them once and
/// in the order of the list.
pub proof fn accessed_words_are_those_with_a_time(items: Seq<(u32, MemoryRecord)>, n: nat)
    requires
        n <= items.len(),
        forall|i: int, j: int|
            0 <= i < j < items.len() ==> (#[trigger] items[i]).0 < (#[trigger] items[j]).0,
    ensures
        forall|k: int|
            0 <= k < n ==> (accessed(items, n).contains(#[trigger] items[k]) <==> items[k].1.timestamp
                != 0),
        forall|e: (u32, MemoryRecord)| #[trigger]
            accessed(items, n).contains(e) ==> exists|k: int| 0 <= k < n && #[trigger] items[k] == e,
        forall|i: int, j: int|
            0 <= i < j < accessed(items, n).len() ==> (#[trigger] accessed(items, n)[i]).0 < (
            #[trigger] accessed(items, n)[j]).0,
    decreases n,
{
    if n > 0 {
        let before = accessed(items, (n - 1) as nat);
        let now = accessed(items, n);
        accessed_words_are_those_with_a_time(items, (n - 1) as nat);
        let last = items[n - 1];
        if last.1.timestamp != 0 {
            assert(now[before.len() as int] == last);
            assert forall|e: (u32, MemoryRecord)| before.contains(e) implies #[trigger] now.contains(
                e,
            ) by {
                let k = choose|k: int| 0 <= k < before.len() && before[k] == e;
                assert(now[k] == e);
            }
            assert forall|e: (u32, MemoryRecord)| #[trigger] now.contains(e) implies e == last
                || before.contains(e) by {
                let k = choose|k: int| 0 <= k < now.len() && now[k] == e;
                if k < before.len() {
                    assert(before[k] == e);
                }
            }
            assert forall|i: int, j: int| 0 <= i < j < now.len() implies (#[trigger] now[i]).0 < (
            #[trigger] now[j]).0 by {
                if j == before.len() {
                    assert(before.contains(before[i]));
                    assert(now[i] == before[i]);
                } else {
                    assert(before[i].0 < before[j].0);
                }
            }
        }
        assert forall|k: int| 0 <= k < n implies (now.contains(#[trigger] items[k])
            <==> items[k].1.timestamp != 0) by {
            if k == n - 1 && last.1.timestamp == 0 {
                if now.contains(last) {
                    let j = choose|j: int| 0 <= j < n - 1 && #[trigger] items[j] == last;
                    assert(items[j].0 < items[n - 1].0);
                }
            }
        }
    }
}

} // verus!
