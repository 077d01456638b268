//! What the words of memory hold at the start and at the end of a run, and between two accesses.
use vstd::prelude::*;

use crate::events::{MemValue, MemoryInitializeFinalizeEvent, MemoryRecord};
use crate::globals;
use crate::hook::Hook;
use crate::machine::{self, Bus, Cpu};
use crate::memory;
use crate::minimal;
use crate::pipeline;
use crate::precompiles::Precompile;
use crate::program::Program;
use crate::register::Register;
use crate::syscalls::SyscallCode;

verus! {

/// A word that is written holds the value and the time of the write, and the next access sees
/// them; a word that is read keeps its value and takes the time; all other words stay. Each
/// access logs what the word held before it.
pub proof fn an_access_sees_the_last_one(bus: Bus, addr: u32, other: u32, value: u32, clk: u64)
    requires
        bus is Live,
    ensures
        bus.write(addr, value, clk).entry(addr) == (MemValue { clk, value }),
        bus.read(addr, clk).entry(addr) == (MemValue { clk, value: bus.entry(addr).value }),
        bus.look(addr).entry(addr) == bus.entry(addr),
        addr / 4 != other / 4 ==> {
            &&& bus.write(addr, value, clk).entry(other) == bus.entry(other)
            &&& bus.read(addr, clk).entry(other) == bus.entry(other)
            &&& bus.look(addr).entry(other) == bus.entry(other)
        },
        addr / 4 == other / 4 ==> bus.entry(other) == bus.entry(addr),
        bus.write(addr, value, clk)->Live_0.log == bus->Live_0.log.push(bus.entry(addr)),
        bus.read(addr, clk)->Live_0.log == bus->Live_0.log.push(bus.entry(addr)),
{
}

/// Seeds are kept from one memory to another.
#[verifier::opaque]
pub open spec fn keeps_seeds(a: Bus, b: Bus) -> bool {
    a is Live ==> b is Live && forall|k: int| #[trigger]
        a->Live_0.seeds.contains_key(k) ==> b->Live_0.seeds.contains_key(k)
            && b->Live_0.seeds[k] == a->Live_0.seeds[k]
}

proof fn lemma_seeded_keeps(seeds: Map<int, u32>, ptr: u32, bytes: Seq<u8>, n: nat)
    ensures
        forall|k: int| #[trigger]
            seeds.contains_key(k) ==> machine::seeded(seeds, ptr, bytes, n).0.contains_key(k)
                && machine::seeded(seeds, ptr, bytes, n).0[k] == seeds[k],
    decreases n,
{
    if n > 0 {
        lemma_seeded_keeps(seeds, ptr, bytes, (n - 1) as nat);
    }
}

proof fn lemma_keeps()
    ensures
        forall|a: Bus| #[trigger] keeps_seeds(a, a),
        forall|a: Bus, b: Bus, c: Bus| #[trigger]
            keeps_seeds(a, b) && #[trigger] keeps_seeds(b, c) ==> keeps_seeds(a, c),
        forall|a: Bus, addr: u32, clk: u64| keeps_seeds(a, #[trigger] a.read(addr, clk)),
        forall|a: Bus, addr: u32, value: u32, clk: u64|
            keeps_seeds(a, #[trigger] a.write(addr, value, clk)),
        forall|a: Bus, addr: u32| keeps_seeds(a, #[trigger] a.look(addr)),
        forall|a: Bus| keeps_seeds(a, #[trigger] a.enter()),
        forall|a: Bus| keeps_seeds(a, #[trigger] a.exit()),
        forall|a: Bus, clk: u64| keeps_seeds(a, #[trigger] a.hint_len(clk).0),
        forall|a: Bus, ptr: u32, len: u32| keeps_seeds(a, #[trigger] a.hint_read(ptr, len).0),
        forall|a: Bus, fd: u32, bytes: Seq<u8>| keeps_seeds(a, #[trigger] a.write_fd(fd, bytes).0),
{
    reveal(keeps_seeds);
    assert forall|a: Bus, b: Bus, c: Bus| #[trigger]
        keeps_seeds(a, b) && #[trigger] keeps_seeds(b, c) implies keeps_seeds(a, c) by {
        if a is Live {
            assert forall|k: int| #[trigger]
                a->Live_0.seeds.contains_key(k) implies c->Live_0.seeds.contains_key(k)
                && c->Live_0.seeds[k] == a->Live_0.seeds[k] by {
                assert(b->Live_0.seeds.contains_key(k));
            }
        }
    }
    assert forall|a: Bus, ptr: u32, len: u32| keeps_seeds(
        a,
        #[trigger] a.hint_read(ptr, len).0,
    ) by {
        if let Bus::Live(ram) = a {
            let bytes = ram.input[0];
            lemma_seeded_keeps(ram.seeds, ptr, bytes, machine::hint_words(bytes));
        }
    }
}

proof fn lemma_many_keep(bus: Bus, ptr: u32, n: nat, clk: u64)
    ensures
        keeps_seeds(bus, bus.read_many(ptr, n, clk).0),
        keeps_seeds(bus, bus.look_bytes(ptr, n).0),
        keeps_seeds(bus, bus.extend_schedule(ptr, n, clk)),
        forall|words: Seq<u32>| keeps_seeds(bus, #[trigger] bus.write_many(ptr, words, n, clk)),
    decreases n,
{
    lemma_keeps();
    if n > 0 {
        lemma_many_keep(bus, ptr, (n - 1) as nat, clk);
        assert forall|words: Seq<u32>| keeps_seeds(
            bus,
            #[trigger] bus.write_many(ptr, words, n, clk),
        ) by {
            assert(keeps_seeds(bus, bus.write_many(ptr, words, (n - 1) as nat, clk)));
        }
    }
}

proof fn lemma_all_keep()
    ensures
        forall|bus: Bus, ptr: u32, n: nat, clk: u64| keeps_seeds(
            bus,
            #[trigger] bus.read_many(ptr, n, clk).0,
        ),
        forall|bus: Bus, ptr: u32, n: nat| keeps_seeds(bus, #[trigger] bus.look_bytes(ptr, n).0),
        forall|bus: Bus, ptr: u32, n: nat, clk: u64| keeps_seeds(
            bus,
            #[trigger] bus.extend_schedule(ptr, n, clk),
        ),
        forall|bus: Bus, ptr: u32, words: Seq<u32>, n: nat, clk: u64| keeps_seeds(
            bus,
            #[trigger] bus.write_many(ptr, words, n, clk),
        ),
{
    assert forall|bus: Bus, ptr: u32, n: nat, clk: u64| keeps_seeds(
        bus,
        #[trigger] bus.read_many(ptr, n, clk).0,
    ) by {
        lemma_many_keep(bus, ptr, n, clk);
    }
    assert forall|bus: Bus, ptr: u32, n: nat| keeps_seeds(
        bus,
        #[trigger] bus.look_bytes(ptr, n).0,
    ) by {
        lemma_many_keep(bus, ptr, n, 0);
    }
    assert forall|bus: Bus, ptr: u32, n: nat, clk: u64| keeps_seeds(
        bus,
        #[trigger] bus.extend_schedule(ptr, n, clk),
    ) by {
        lemma_many_keep(bus, ptr, n, clk);
    }
    assert forall|bus: Bus, ptr: u32, words: Seq<u32>, n: nat, clk: u64| keeps_seeds(
        bus,
        #[trigger] bus.write_many(ptr, words, n, clk),
    ) by {
        lemma_many_keep(bus, ptr, n, clk);
    }
}

proof fn lemma_calls_keep(c: Cpu, op: Precompile, arg1: u32, arg2: u32)
    ensures
        keeps_seeds(c.bus, c.write_call(arg1, arg2).0.bus),
        keeps_seeds(c.bus, c.sys_write(arg1, arg2).0.bus),
        keeps_seeds(c.bus, c.hint_len_call().0.bus),
        keeps_seeds(c.bus, c.sha_compress(arg1, arg2).0.bus),
        keeps_seeds(c.bus, c.sha_extend(arg1).0.bus),
        keeps_seeds(c.bus, c.keccak_sponge(arg1, arg2).0.bus),
        keeps_seeds(c.bus, c.binary_call(op, arg1, arg2).0.bus),
        keeps_seeds(c.bus, c.unary_call(op, arg1).0.bus),
        keeps_seeds(c.bus, c.decompress_call(op, arg1, arg2).0.bus),
        keeps_seeds(c.bus, c.modular_call(arg1, arg2).0.bus),
        keeps_seeds(c.bus, c.wide_call(arg1, arg2).0.bus),
{
    lemma_keeps();
    lemma_all_keep();
    assert(keeps_seeds(c.bus, c.write_call(arg1, arg2).0.bus)) by {
        reveal(Cpu::write_call);
    }
    assert(keeps_seeds(c.bus, c.sys_write(arg1, arg2).0.bus)) by {
        reveal(Cpu::sys_write);
    }
    assert(keeps_seeds(c.bus, c.hint_len_call().0.bus)) by {
        reveal(Cpu::hint_len_call);
    }
    assert(keeps_seeds(c.bus, c.sha_compress(arg1, arg2).0.bus)) by {
        reveal(Cpu::sha_compress);
    }
    assert(keeps_seeds(c.bus, c.sha_extend(arg1).0.bus)) by {
        reveal(Cpu::sha_extend);
    }
    assert(keeps_seeds(c.bus, c.keccak_sponge(arg1, arg2).0.bus)) by {
        reveal(Cpu::keccak_sponge);
    }
    assert(keeps_seeds(c.bus, c.binary_call(op, arg1, arg2).0.bus)) by {
        reveal(Cpu::binary_call);
    }
    assert(keeps_seeds(c.bus, c.unary_call(op, arg1).0.bus)) by {
        reveal(Cpu::unary_call);
    }
    assert(keeps_seeds(c.bus, c.decompress_call(op, arg1, arg2).0.bus)) by {
        reveal(Cpu::decompress_call);
    }
    assert(keeps_seeds(c.bus, c.modular_call(arg1, arg2).0.bus)) by {
        reveal(Cpu::modular_call);
    }
    assert(keeps_seeds(c.bus, c.wide_call(arg1, arg2).0.bus)) by {
        reveal(Cpu::wide_call);
    }
}

proof fn lemma_step_keeps(c: Cpu, program: Program, max_syscall_cycles: u32)
    ensures
        keeps_seeds(c.bus, c.step(program, max_syscall_cycles).0.bus),
{
    lemma_keeps();
    let start = Cpu {
        clk: crate::vm::bumped_clk(c.clk, max_syscall_cycles) as u64,
        delay: false,
        ..c
    };
    let code = SyscallCode::decode(start.reg(Register::V0.number()));
    let arg1 = start.reg(Register::A0.number());
    let arg2 = start.reg(Register::A1.number());
    let counted = start.counted(code);
    assert(keeps_seeds(c.bus, counted.dispatch(program, code, arg1, arg2).0.bus)) by {
        reveal(Cpu::dispatch);
        lemma_calls_keep(counted, Precompile::of(code)->Some_0, arg1, arg2);
    }
    reveal(Cpu::operate);
}

/// A hint that is placed stays where it is for the rest of the run.
pub proof fn placed_hints_stay(c: Cpu, program: Program, max_syscall_cycles: u32, n: nat)
    ensures
        c.steps(program, max_syscall_cycles, n) matches Some(d) ==> keeps_seeds(c.bus, d.bus),
    decreases n,
{
    lemma_keeps();
    if n > 0 {
        placed_hints_stay(c, program, max_syscall_cycles, (n - 1) as nat);
        if let Some(mid) = c.steps(program, max_syscall_cycles, (n - 1) as nat) {
            lemma_step_keeps(mid, program, max_syscall_cycles);
        }
    }
}

/// Where an event of the words that a run initializes comes from.
proof fn lemma_initialized(
    items: Seq<(u32, MemoryRecord)>,
    seeds: Map<int, u32>,
    image: Map<u32, u32>,
    n: nat,
    j: int,
)
    requires
        n <= items.len(),
        0 <= j < globals::initialized(items, seeds, image, n).len(),
    ensures
        ({
            let event = globals::initialized(items, seeds, image, n)[j];
            &&& event.value == globals::seed(seeds, event.addr)
            &&& event.timestamp == 0
            &&& event.addr != 0
            &&& !image.contains_key(event.addr)
            &&& exists|i: int| 0 <= i < n && (#[trigger] items[i]).0 == event.addr
        }),
    decreases n,
{
    if n > 0 {
        let before = globals::initialized(items, seeds, image, (n - 1) as nat);
        if j < before.len() {
            lemma_initialized(items, seeds, image, (n - 1) as nat, j);
        } else {
            assert(items[n - 1].0 == globals::initialized(items, seeds, image, n)[j].addr);
        }
    }
}

/// Where an event of the words that a run finalizes comes from.
proof fn lemma_finalized(items: Seq<(u32, MemoryRecord)>, n: nat, j: int)
    requires
        n <= items.len(),
        0 <= j < globals::finalized(items, n).len(),
    ensures
        ({
            let event = globals::finalized(items, n)[j];
            &&& event.addr != 0
            &&& exists|i: int|
                0 <= i < n && (#[trigger] items[i]) == (
                    event.addr,
                    MemoryRecord { value: event.value, timestamp: event.timestamp },
                )
        }),
    decreases n,
{
    if n > 0 {
        let before = globals::finalized(items, (n - 1) as nat);
        if j < before.len() {
            lemma_finalized(items, (n - 1) as nat, j);
        } else {
            let event = globals::finalized(items, n)[j];
            assert(items[n - 1] == (
                event.addr,
                MemoryRecord { value: event.value, timestamp: event.timestamp },
            ));
        }
    }
}

/// Every listed word but word zero is finalized.
proof fn lemma_is_finalized(items: Seq<(u32, MemoryRecord)>, n: nat, i: int)
    requires
        n <= items.len(),
        0 <= i < n,
        items[i].0 != 0,
    ensures
        exists|j: int|
            0 <= j < globals::finalized(items, n).len() && (#[trigger] globals::finalized(
                items,
                n,
            )[j]).addr == items[i].0,
    decreases n,
{
    let all = globals::finalized(items, n);
    let before = globals::finalized(items, (n - 1) as nat);
    if i < n - 1 {
        lemma_is_finalized(items, (n - 1) as nat, i);
        let j = choose|j: int| 0 <= j < before.len() && (#[trigger] before[j]).addr == items[i].0;
        assert(all[j] == before[j]);
    } else {
        assert(all[before.len() as int].addr == items[i].0);
    }
}

/// Every listed word but word zero and those of the image is initialized.
proof fn lemma_is_initialized(
    items: Seq<(u32, MemoryRecord)>,
    seeds: Map<int, u32>,
    image: Map<u32, u32>,
    n: nat,
    i: int,
)
    requires
        n <= items.len(),
        0 <= i < n,
        items[i].0 != 0,
        !image.contains_key(items[i].0),
    ensures
        exists|j: int|
            0 <= j < globals::initialized(items, seeds, image, n).len() && (
            #[trigger] globals::initialized(items, seeds, image, n)[j]).addr == items[i].0,
    decreases n,
{
    let all = globals::initialized(items, seeds, image, n);
    let before = globals::initialized(items, seeds, image, (n - 1) as nat);
    if i < n - 1 {
        lemma_is_initialized(items, seeds, image, (n - 1) as nat, i);
        let j = choose|j: int| 0 <= j < before.len() && (#[trigger] before[j]).addr == items[i].0;
        assert(all[j] == before[j]);
    } else {
        assert(all[before.len() as int].addr == items[i].0);
    }
}

/// A word starts with what its first access sees. At a point of a run before the first access of
/// a word, the preimage that this access will find is the value in the event that initializes the
/// word, unless a hint is placed on the word only after that point.
pub proof fn a_word_starts_with_what_its_first_access_sees(
    c: Cpu,
    d: Cpu,
    program: Program,
    max_syscall_cycles: u32,
    n: nat,
    initialize: Seq<MemoryInitializeFinalizeEvent>,
    finalize: Seq<MemoryInitializeFinalizeEvent>,
    j: int,
)
    requires
        c.bus is Live,
        c.steps(program, max_syscall_cycles, n) == Some(d),
        pipeline::are_globals(d, program, initialize, finalize),
        0 <= j < initialize.len(),
        !c.bus->Live_0.mem.seen.contains_key(initialize[j].addr as int / 4),
        c.bus->Live_0.seeds.contains_key(initialize[j].addr as int / 4)
            || !d.bus->Live_0.seeds.contains_key(initialize[j].addr as int / 4),
    ensures
        c.bus.entry(initialize[j].addr) == (MemValue {
            clk: initialize[j].timestamp,
            value: initialize[j].value,
        }),
{
    placed_hints_stay(c, program, max_syscall_cycles, n);
    reveal(keeps_seeds);
    let items = choose|items: Seq<(u32, MemoryRecord)>| #[trigger]
        globals::lists_records(items, d.bus->Live_0.mem.seen) && initialize
            == globals::initialized(
            items,
            d.bus->Live_0.seeds,
            program.image@,
            items.len(),
        ) && finalize == globals::finalized(items, items.len());
    lemma_initialized(items, d.bus->Live_0.seeds, program.image@, items.len(), j);
}

/// A run initializes exactly the words that it accessed and that its image does not hold, word
/// zero apart.
pub proof fn every_new_word_is_initialized(
    d: Cpu,
    program: Program,
    initialize: Seq<MemoryInitializeFinalizeEvent>,
    finalize: Seq<MemoryInitializeFinalizeEvent>,
    addr: u32,
)
    requires
        d.bus is Live,
        pipeline::are_globals(d, program, initialize, finalize),
        addr % 4 == 0,
    ensures
        (exists|j: int| 0 <= j < initialize.len() && (#[trigger] initialize[j]).addr == addr) <==> {
            &&& addr != 0
            &&& !program.image@.contains_key(addr)
            &&& d.bus->Live_0.mem.seen.contains_key(addr as int / 4)
        },
{
    let mem = d.bus->Live_0.mem.seen;
    let seeds = d.bus->Live_0.seeds;
    let image = program.image@;
    let items = choose|items: Seq<(u32, MemoryRecord)>| #[trigger]
        globals::lists_records(items, mem) && initialize == globals::initialized(
            items,
            seeds,
            image,
            items.len(),
        ) && finalize == globals::finalized(items, items.len());
    let keys = items.map_values(|x: (u32, MemoryRecord)| x.0);
    if exists|j: int| 0 <= j < initialize.len() && (#[trigger] initialize[j]).addr == addr {
        let j = choose|j: int| 0 <= j < initialize.len() && (#[trigger] initialize[j]).addr == addr;
        lemma_initialized(items, seeds, image, items.len(), j);
        let i = choose|i: int| 0 <= i < items.len() && (#[trigger] items[i]).0 == addr;
        assert(keys[i] == addr);
    }
    if addr != 0 && !image.contains_key(addr) && mem.contains_key(addr as int / 4) {
        let i = choose|i: int| 0 <= i < keys.len() && #[trigger] keys[i] == (addr as int / 4) * 4;
        assert(items[i].0 == addr);
        lemma_is_initialized(items, seeds, image, items.len(), i);
    }
}

/// A word ends with what an access behind the run would see, and every word that was accessed has
/// an end, word zero apart.
pub proof fn a_word_ends_with_what_the_next_access_sees(
    d: Cpu,
    program: Program,
    initialize: Seq<MemoryInitializeFinalizeEvent>,
    finalize: Seq<MemoryInitializeFinalizeEvent>,
    addr: u32,
)
    requires
        d.bus is Live,
        pipeline::are_globals(d, program, initialize, finalize),
        addr % 4 == 0,
    ensures
        forall|j: int|
            0 <= j < finalize.len() && (#[trigger] finalize[j]).addr == addr ==> d.bus.entry(addr)
                == (MemValue { clk: finalize[j].timestamp, value: finalize[j].value }),
        (exists|j: int| 0 <= j < finalize.len() && (#[trigger] finalize[j]).addr == addr) <==> {
            &&& addr != 0
            &&& d.bus->Live_0.mem.seen.contains_key(addr as int / 4)
        },
{
    let mem = d.bus->Live_0.mem.seen;
    let items = choose|items: Seq<(u32, MemoryRecord)>| #[trigger]
        globals::lists_records(items, mem) && initialize == globals::initialized(
            items,
            d.bus->Live_0.seeds,
            program.image@,
            items.len(),
        ) && finalize == globals::finalized(items, items.len());
    let keys = items.map_values(|x: (u32, MemoryRecord)| x.0);
    assert forall|j: int|
        0 <= j < finalize.len() && (#[trigger] finalize[j]).addr == addr implies d.bus.entry(addr)
        == (MemValue { clk: finalize[j].timestamp, value: finalize[j].value }) && addr != 0
        && mem.contains_key(addr as int / 4) by {
        lemma_finalized(items, items.len(), j);
        let i = choose|i: int|
            0 <= i < items.len() && (#[trigger] items[i]) == (
                addr,
                MemoryRecord { value: finalize[j].value, timestamp: finalize[j].timestamp },
            );
        assert(keys[i] == addr);
        assert(mem[memory::slot(items[i].0)] == items[i].1);
    }
    if addr != 0 && mem.contains_key(addr as int / 4) {
        let i = choose|i: int| 0 <= i < keys.len() && #[trigger] keys[i] == (addr as int / 4) * 4;
        assert(items[i].0 == addr);
        lemma_is_finalized(items, items.len(), i);
    }
}

/// A run starts with its image: a word of the image holds its value, a word that the image does not
/// hold is zero, and so are the registers.
pub proof fn a_run_starts_with_its_image(
    c: Cpu,
    program: Program,
    input: Seq<Seq<u8>>,
    hooks: Map<u32, Hook>,
    addr: u32,
)
    requires
        minimal::starts_at(c, program, input, hooks),
    ensures
        addr % 4 == 0 && addr >= 36 && program.image@.contains_key(addr) && (forall|b: u32|
            addr < b <= addr + 3 ==> !(#[trigger] program.image@.contains_key(b))) ==> c.bus.entry(
            addr,
        ) == (MemValue { clk: 0, value: program.image@[addr] }),
        (forall|b: u32|
            b >= 36 && #[trigger] program.image@.contains_key(b) ==> b / 4 != addr / 4)
            ==> c.bus.entry(addr) == (MemValue { clk: 0, value: 0 }),
        addr < 36 ==> c.reg(addr as u8) == if program.image@.contains_key(addr) {
            program.image@[addr]
        } else {
            0
        },
{
    let image = program.image@;
    let mem = c.bus->Live_0.mem.seen;
    let k = memory::slot(addr);
    if addr % 4 == 0 && addr >= 36 && image.contains_key(addr) && (forall|b: u32|
        addr < b <= addr + 3 ==> !(#[trigger] image.contains_key(b))) {
        assert(mem.contains_key(k));
        if exists|a: u32| #[trigger]
            minimal::is_last_at(image, k, a) && mem[k] == (MemoryRecord {
                value: image[a],
                timestamp: 0,
            }) {
            let a = choose|a: u32| #[trigger]
                minimal::is_last_at(image, k, a) && mem[k] == (MemoryRecord {
                    value: image[a],
                    timestamp: 0,
                });
            assert(addr <= a);
            assert(a == addr);
        }
    }
    if forall|b: u32| b >= 36 && #[trigger] image.contains_key(b) ==> b / 4 != addr / 4 {
        if mem.contains_key(k) {
            let a = choose|a: u32| #[trigger]
                minimal::is_last_at(image, k, a) && mem[k] == (MemoryRecord {
                    value: image[a],
                    timestamp: 0,
                });
            assert(image.contains_key(a));
        }
    }
    if addr < 36 {
        assert(c.regs[addr as int] == if image.contains_key(addr) {
            image[addr]
        } else {
            0
        });
    }
}

} // verus!
