//! Replaying: an interpreter that reads the log of a run does what the run did.
use vstd::prelude::*;

use crate::chips;
use crate::errors::ExecutionError;
use crate::events::MemValue;
use crate::instruction::Instruction;
use crate::machine::{self, Bus, Cpu, Ram};
use crate::memory;
use crate::opcode::OpClass;
use crate::precompiles::{Precompile, Shape};
use crate::program::Program;
use crate::register::Register;
use crate::syscalls::SyscallCode;

verus! {

/// A live memory whose log is the beginning of `total`.
pub open spec fn begins(bus: Bus, total: Seq<MemValue>) -> bool {
    match bus {
        Bus::Live(ram) => ram.log.len() <= total.len() && total.take(ram.log.len() as int)
            == ram.log,
        Bus::Replay(_) => false,
    }
}

/// The replayed memory that stands where a live memory stands in `total`.
pub open spec fn shadow(bus: Bus, total: Seq<MemValue>) -> Bus {
    match bus {
        Bus::Live(ram) => Bus::Replay(total.skip(ram.log.len() as int)),
        Bus::Replay(left) => bus,
    }
}

/// The replaying machine stands where the live one stands.
pub open spec fn mirrors(r: Cpu, a: Cpu, total: Seq<MemValue>) -> bool {
    &&& r.regs == a.regs
    &&& r.pc == a.pc
    &&& r.next_pc == a.next_pc
    &&& r.clk == a.clk
    &&& r.delay == a.delay
    &&& r.exited == a.exited
    &&& r.fork == a.fork
    &&& r.retired <= a.retired
    &&& a.bus is Live
    &&& r.bus == shadow(a.bus, total)
}

/// Two operations end alike.
pub open spec fn tracks<T>(
    rr: (Cpu, Result<T, ExecutionError>),
    ra: (Cpu, Result<T, ExecutionError>),
    total: Seq<MemValue>,
) -> bool {
    &&& mirrors(rr.0, ra.0, total)
    &&& rr.1 == ra.1
}

/// One more entry of the log.
proof fn lemma_logged(before: Ram, entry: MemValue, total: Seq<MemValue>)
    requires
        before.log.len() < total.len(),
        total.take(before.log.len() as int + 1) == before.log.push(entry),
    ensures
        total.take(before.log.len() as int) == before.log,
        total.skip(before.log.len() as int).len() > 0,
        total.skip(before.log.len() as int)[0] == entry,
        machine::rest(total.skip(before.log.len() as int)) == total.skip(before.log.len() as int + 1),
{
    let n = before.log.len() as int;
    assert(total.take(n) =~= total.take(n + 1).take(n));
    assert(before.log.push(entry).take(n) =~= before.log);
    assert(total[n] == total.take(n + 1)[n]);
    assert(total.skip(n).skip(1) =~= total.skip(n + 1));
}

proof fn lemma_read(bus: Bus, addr: u32, clk: u64, total: Seq<MemValue>)
    requires
        bus is Live,
        begins(bus.read(addr, clk), total),
    ensures
        begins(bus, total),
        shadow(bus, total).entry(addr) == bus.entry(addr),
        shadow(bus, total).read(addr, clk) == shadow(bus.read(addr, clk), total),
{
    lemma_logged(bus->Live_0, bus.entry(addr), total);
}

proof fn lemma_write(bus: Bus, addr: u32, value: u32, clk: u64, total: Seq<MemValue>)
    requires
        bus is Live,
        begins(bus.write(addr, value, clk), total),
    ensures
        begins(bus, total),
        shadow(bus, total).write(addr, value, clk) == shadow(bus.write(addr, value, clk), total),
        memory::addressable(addr) ==> shadow(bus, total).peek(addr, 0) == bus.peek(addr, 0),
{
    lemma_logged(bus->Live_0, bus.entry(addr), total);
}

proof fn lemma_look(bus: Bus, addr: u32, total: Seq<MemValue>)
    requires
        bus is Live,
        begins(bus.look(addr), total),
    ensures
        begins(bus, total),
        shadow(bus, total).seen(addr) == bus.seen(addr),
        shadow(bus, total).look(addr) == shadow(bus.look(addr), total),
{
    let ram = bus->Live_0;
    let plain = ram.plain(addr);
    lemma_logged(ram, MemValue { clk: plain.timestamp, value: plain.value }, total);
}

proof fn lemma_read_many(bus: Bus, ptr: u32, n: nat, clk: u64, total: Seq<MemValue>)
    requires
        bus is Live,
        begins(bus.read_many(ptr, n, clk).0, total),
    ensures
        begins(bus, total),
        shadow(bus, total).read_many(ptr, n, clk).0 == shadow(bus.read_many(ptr, n, clk).0, total),
        shadow(bus, total).read_many(ptr, n, clk).1 == bus.read_many(ptr, n, clk).1,
    decreases n,
{
    if n > 0 {
        let m = (n - 1) as nat;
        lemma_many_are_live(bus, ptr, m, clk);
        let mid = bus.read_many(ptr, m, clk).0;
        lemma_read(mid, machine::word_at(ptr, n - 1), clk, total);
        lemma_read_many(bus, ptr, m, clk, total);
    }
}

proof fn lemma_many_are_live(bus: Bus, ptr: u32, n: nat, clk: u64)
    requires
        bus is Live,
    ensures
        bus.read_many(ptr, n, clk).0 is Live,
        bus.read_many(ptr, n, clk).1.len() == n,
        bus.look_bytes(ptr, n).0 is Live,
        bus.extend_schedule(ptr, n, clk) is Live,
        forall|words: Seq<u32>| #[trigger] bus.write_many(ptr, words, n, clk) is Live,
    decreases n,
{
    if n > 0 {
        lemma_many_are_live(bus, ptr, (n - 1) as nat, clk);
        assert forall|words: Seq<u32>| #[trigger] bus.write_many(ptr, words, n, clk) is Live by {
            assert(bus.write_many(ptr, words, (n - 1) as nat, clk) is Live);
        }
    }
}

proof fn lemma_write_many(bus: Bus, ptr: u32, words: Seq<u32>, n: nat, clk: u64, total: Seq<MemValue>)
    requires
        bus is Live,
        begins(bus.write_many(ptr, words, n, clk), total),
    ensures
        begins(bus, total),
        shadow(bus, total).write_many(ptr, words, n, clk) == shadow(
            bus.write_many(ptr, words, n, clk),
            total,
        ),
    decreases n,
{
    if n > 0 {
        let m = (n - 1) as nat;
        lemma_many_are_live(bus, ptr, m, clk);
        let mid = bus.write_many(ptr, words, m, clk);
        lemma_write(mid, machine::word_at(ptr, n - 1), words[n - 1], clk, total);
        lemma_write_many(bus, ptr, words, m, clk, total);
    }
}

proof fn lemma_look_bytes(bus: Bus, ptr: u32, n: nat, total: Seq<MemValue>)
    requires
        bus is Live,
        begins(bus.look_bytes(ptr, n).0, total),
    ensures
        begins(bus, total),
        shadow(bus, total).look_bytes(ptr, n).0 == shadow(bus.look_bytes(ptr, n).0, total),
        shadow(bus, total).look_bytes(ptr, n).1 == bus.look_bytes(ptr, n).1,
    decreases n,
{
    if n > 0 {
        let m = (n - 1) as nat;
        lemma_many_are_live(bus, ptr, m, 0);
        let mid = bus.look_bytes(ptr, m).0;
        let addr = (ptr + (n - 1)) as u32;
        lemma_look(mid, (addr - addr % 4) as u32, total);
        lemma_look_bytes(bus, ptr, m, total);
    }
}

proof fn lemma_extend(bus: Bus, ptr: u32, n: nat, clk: u64, total: Seq<MemValue>)
    requires
        bus is Live,
        begins(bus.extend_schedule(ptr, n, clk), total),
    ensures
        begins(bus, total),
        shadow(bus, total).extend_schedule(ptr, n, clk) == shadow(
            bus.extend_schedule(ptr, n, clk),
            total,
        ),
    decreases n,
{
    if n > 16 {
        let m = (n - 1) as nat;
        let i = n - 1;
        lemma_many_are_live(bus, ptr, m, clk);
        let b0 = bus.extend_schedule(ptr, m, clk);
        let b1 = b0.read(machine::word_at(ptr, i - 15), clk);
        let b2 = b1.read(machine::word_at(ptr, i - 2), clk);
        let b3 = b2.read(machine::word_at(ptr, i - 16), clk);
        let b4 = b3.read(machine::word_at(ptr, i - 7), clk);
        let w = crate::sha256::schedule_word(
            b0.entry(machine::word_at(ptr, i - 15)).value,
            b1.entry(machine::word_at(ptr, i - 2)).value,
            b2.entry(machine::word_at(ptr, i - 16)).value,
            b3.entry(machine::word_at(ptr, i - 7)).value,
        );
        lemma_write(b4, machine::word_at(ptr, i), w, clk, total);
        lemma_read(b3, machine::word_at(ptr, i - 7), clk, total);
        lemma_read(b2, machine::word_at(ptr, i - 16), clk, total);
        lemma_read(b1, machine::word_at(ptr, i - 2), clk, total);
        lemma_read(b0, machine::word_at(ptr, i - 15), clk, total);
        lemma_extend(bus, ptr, m, clk, total);
    }
}

/// The first word that an instruction accesses is the next one of the log.
proof fn lemma_first_word(a: Cpu, program: Program, max_syscall_cycles: u32, total: Seq<MemValue>)
    requires
        a.bus is Live,
        a.step(program, max_syscall_cycles).1 is Ok,
        begins(a.step(program, max_syscall_cycles).0.bus, total),
        chips::shows_access(a, program.at(a.pc)),
    ensures
        shadow(a.bus, total).entry(chips::first_access(a, program.at(a.pc))) == a.bus.entry(
            chips::first_access(a, program.at(a.pc)),
        ),
{
    reveal(Cpu::operate);
    let i = program.at(a.pc);
    let clk = crate::vm::bumped_clk(a.clk, max_syscall_cycles) as u64;
    let addr = chips::first_access(a, i);
    match i.opcode.class() {
        OpClass::Load => {
            lemma_read(a.bus, addr, clk, total);
        },
        OpClass::Store => {
            lemma_logged(a.bus->Live_0, a.bus.entry(addr), total);
        },
        _ => {
            reveal(Cpu::dispatch);
            reveal(Cpu::keccak_sponge);
            let input_ptr = a.reg(Register::A0.number());
            let result_ptr = a.reg(Register::A1.number());
            let len = a.bus.entry(addr).value;
            let b1 = a.bus.read(addr, clk);
            let (b2, words) = b1.read_many(input_ptr, len as nat, clk);
            lemma_many_are_live(b1, input_ptr, len as nat, clk);
            lemma_write_many(
                b2,
                result_ptr,
                crate::keccak::squeezed(crate::keccak::sponge(words)),
                16,
                clk,
                total,
            );
            lemma_read_many(b1, input_ptr, len as nat, clk, total);
            lemma_read(a.bus, addr, clk, total);
        },
    }
}

/// A replay records of an instruction what the run would have recorded.
pub proof fn a_replay_records_what_the_run_does(
    r: Cpu,
    a: Cpu,
    program: Program,
    max_syscall_cycles: u32,
    total: Seq<MemValue>,
)
    requires
        mirrors(r, a, total),
        a.step(program, max_syscall_cycles).1 is Ok,
        mirrors(
            r.step(program, max_syscall_cycles).0,
            a.step(program, max_syscall_cycles).0,
            total,
        ),
        begins(a.step(program, max_syscall_cycles).0.bus, total),
    ensures
        chips::retired(
            r,
            r.step(program, max_syscall_cycles).0,
            program.at(r.pc),
            max_syscall_cycles,
        ) == chips::retired(
            a,
            a.step(program, max_syscall_cycles).0,
            program.at(a.pc),
            max_syscall_cycles,
        ),
        chips::operands(r, program.at(r.pc)) == chips::operands(a, program.at(a.pc)),
{
    if chips::shows_access(a, program.at(a.pc)) {
        lemma_first_word(a, program, max_syscall_cycles, total);
    }
    lemma_operands(r, a, program, max_syscall_cycles, total);
}

/// Reading logs one entry per word and changes no value.
proof fn lemma_reads_keep_values(bus: Bus, ptr: u32, n: nat, clk: u64)
    requires
        bus is Live,
    ensures
        bus.read_many(ptr, n, clk).0 is Live,
        bus.read_many(ptr, n, clk).0->Live_0.log.len() == bus->Live_0.log.len() + n,
        forall|a: u32| #[trigger]
            bus.read_many(ptr, n, clk).0->Live_0.current(a).value == bus->Live_0.current(a).value,
    decreases n,
{
    if n > 0 {
        let m = (n - 1) as nat;
        lemma_reads_keep_values(bus, ptr, m, clk);
        let mid = bus.read_many(ptr, m, clk).0;
        let after = bus.read_many(ptr, n, clk).0;
        assert(after == mid.read(machine::word_at(ptr, n - 1), clk));
        assert forall|a: u32| #[trigger] after->Live_0.current(a).value
            == bus->Live_0.current(a).value by {
            assert(mid->Live_0.current(a).value == bus->Live_0.current(a).value);
            assert(mid->Live_0.current(machine::word_at(ptr, n - 1)).value
                == bus->Live_0.current(machine::word_at(ptr, n - 1)).value);
            if memory::slot(a) == memory::slot(machine::word_at(ptr, n - 1)) {
                assert(bus->Live_0.current(a) == bus->Live_0.current(machine::word_at(ptr, n - 1)));
            }
        }
    }
}

/// Writing consecutive words logs the value that each of them had before.
proof fn lemma_writes_log_values(bus: Bus, ptr: u32, words: Seq<u32>, n: nat, total_n: nat, clk: u64)
    requires
        bus is Live,
        n <= total_n,
        machine::words_fit(ptr, total_n),
    ensures
        ({
            let after = bus.write_many(ptr, words, n, clk);
            let start = bus->Live_0.log.len() as int;
            &&& after is Live
            &&& after->Live_0.log.len() == start + n
            &&& forall|i: int|
                0 <= i < n ==> (#[trigger] after->Live_0.log[start + i]).value
                    == bus->Live_0.current(machine::word_at(ptr, i)).value
            &&& forall|i: int|
                n <= i < total_n ==> #[trigger] after->Live_0.current(machine::word_at(ptr, i))
                    == bus->Live_0.current(machine::word_at(ptr, i))
        }),
    decreases n,
{
    if n > 0 {
        let m = (n - 1) as nat;
        lemma_writes_log_values(bus, ptr, words, m, total_n, clk);
        let mid = bus.write_many(ptr, words, m, clk);
        let after = bus.write_many(ptr, words, n, clk);
        let start = bus->Live_0.log.len() as int;
        let addr = machine::word_at(ptr, n - 1);
        assert(after == mid.write(addr, words[n - 1], clk));
        assert forall|i: int| 0 <= i < n implies (#[trigger] after->Live_0.log[start + i]).value
            == bus->Live_0.current(machine::word_at(ptr, i)).value by {
            if i < m {
                assert(after->Live_0.log[start + i] == mid->Live_0.log[start + i]);
            } else {
                assert(mid->Live_0.current(machine::word_at(ptr, i))
                    == bus->Live_0.current(machine::word_at(ptr, i)));
            }
        }
        assert forall|i: int| n <= i < total_n implies #[trigger] after->Live_0.current(
            machine::word_at(ptr, i),
        ) == bus->Live_0.current(machine::word_at(ptr, i)) by {
            assert(memory::slot(machine::word_at(ptr, i)) != memory::slot(addr));
            assert(mid->Live_0.current(machine::word_at(ptr, i)) == bus->Live_0.current(
                machine::word_at(ptr, i),
            ));
        }
    }
}

/// Reading consecutive words logs the value that each of them has.
proof fn lemma_reads_log_values(bus: Bus, ptr: u32, n: nat, clk: u64)
    requires
        bus is Live,
    ensures
        ({
            let after = bus.read_many(ptr, n, clk).0;
            let start = bus->Live_0.log.len() as int;
            &&& after is Live
            &&& after->Live_0.log.len() == start + n
            &&& forall|i: int|
                0 <= i < n ==> (#[trigger] after->Live_0.log[start + i]).value
                    == bus->Live_0.current(machine::word_at(ptr, i)).value
        }),
    decreases n,
{
    lemma_reads_keep_values(bus, ptr, n, clk);
    if n > 0 {
        let m = (n - 1) as nat;
        lemma_reads_log_values(bus, ptr, m, clk);
        lemma_reads_keep_values(bus, ptr, m, clk);
        let mid = bus.read_many(ptr, m, clk).0;
        let after = bus.read_many(ptr, n, clk).0;
        let start = bus->Live_0.log.len() as int;
        let addr = machine::word_at(ptr, n - 1);
        assert(after == mid.read(addr, clk));
        assert forall|i: int| 0 <= i < n implies (#[trigger] after->Live_0.log[start + i]).value
            == bus->Live_0.current(machine::word_at(ptr, i)).value by {
            if i < m {
                assert(after->Live_0.log[start + i] == mid->Live_0.log[start + i]);
            } else {
                assert(mid->Live_0.current(addr).value == bus->Live_0.current(addr).value);
            }
        }
    }
}

/// The words that are about to be read are the next ones of the log.
proof fn lemma_peek_reads(bus: Bus, ptr: u32, n: nat, clk: u64, total: Seq<MemValue>)
    requires
        bus is Live,
        machine::words_fit(ptr, n),
        begins(bus.read_many(ptr, n, clk).0, total),
    ensures
        shadow(bus, total).peek_many(ptr, n, 0) == bus.peek_many(ptr, n, 0),
{
    lemma_reads_log_values(bus, ptr, n, clk);
    let log = bus.read_many(ptr, n, clk).0->Live_0.log;
    let start = bus->Live_0.log.len() as int;
    let left = total.skip(start);
    assert forall|i: int| 0 <= i < n implies #[trigger] shadow(bus, total).peek(
        machine::word_at(ptr, i),
        i as nat,
    ) == bus.peek(machine::word_at(ptr, i), i as nat) by {
        let k = start + i;
        assert(left[i] == total[k]);
        assert(total.take(log.len() as int)[k] == total[k]);
        assert(log[start + i].value == bus->Live_0.current(machine::word_at(ptr, i)).value);
        assert(memory::addressable(machine::word_at(ptr, i)));
    }
    assert(shadow(bus, total).peek_many(ptr, n, 0) =~= bus.peek_many(ptr, n, 0));
}

/// The operands of a call are among the next words of the log.
proof fn lemma_call_operands(a: Cpu, op: Precompile, x: u32, y: u32, total: Seq<MemValue>)
    requires
        a.bus is Live,
    ensures
        ({
            let n = op.width();
            let s = shadow(a.bus, total);
            &&& a.binary_call(op, x, y).1 is Ok && begins(a.binary_call(op, x, y).0.bus, total)
                ==> s.peek_many(x, n, n) == a.bus.peek_many(x, n, n) && s.peek_many(y, n, 0)
                == a.bus.peek_many(y, n, 0)
            &&& a.unary_call(op, x).1 is Ok && begins(a.unary_call(op, x).0.bus, total)
                ==> s.peek_many(x, n, 0) == a.bus.peek_many(x, n, 0)
            &&& a.decompress_call(op, x, y).1 is Ok && begins(
                a.decompress_call(op, x, y).0.bus,
                total,
            ) ==> s.peek_many(machine::word_at(x, n as int), n, 0) == a.bus.peek_many(
                machine::word_at(x, n as int),
                n,
                0,
            )
        }),
{
    let n = op.width();
    if a.binary_call(op, x, y).1 is Ok && begins(a.binary_call(op, x, y).0.bus, total) {
        reveal(Cpu::binary_call);
        let (b1, ys) = a.bus.read_many(y, n, a.clk);
        let out = op.binary(a.bus.peek_many(x, n, n), ys);
        let clk = (a.clk + 1) as u64;
        lemma_reads_keep_values(a.bus, y, n, a.clk);
        lemma_peek_many(a.bus, b1, x, out, n, n, clk, total);
        lemma_write_many(b1, x, out, n, clk, total);
        lemma_peek_reads(a.bus, y, n, a.clk, total);
    }
    if a.unary_call(op, x).1 is Ok && begins(a.unary_call(op, x).0.bus, total) {
        reveal(Cpu::unary_call);
        let out = op.unary(a.bus.peek_many(x, n, 0));
        lemma_peek_many(a.bus, a.bus, x, out, n, 0, a.clk, total);
    }
    if a.decompress_call(op, x, y).1 is Ok && begins(a.decompress_call(op, x, y).0.bus, total) {
        reveal(Cpu::decompress_call);
        let at = machine::word_at(x, n as int);
        let (b1, xs) = a.bus.read_many(at, n, a.clk);
        lemma_many_are_live(a.bus, at, n, a.clk);
        lemma_write_many(b1, x, op.coordinate(xs, y)->Ok_0, n, a.clk, total);
        lemma_peek_reads(a.bus, at, n, a.clk, total);
    }
}

/// The operands of an instruction are among the next words of the log.
proof fn lemma_operands(
    r: Cpu,
    a: Cpu,
    program: Program,
    max_syscall_cycles: u32,
    total: Seq<MemValue>,
)
    requires
        mirrors(r, a, total),
        a.step(program, max_syscall_cycles).1 is Ok,
        begins(a.step(program, max_syscall_cycles).0.bus, total),
    ensures
        chips::operands(r, program.at(a.pc)) == chips::operands(a, program.at(a.pc)),
{
    let i = program.at(a.pc);
    let code = SyscallCode::decode(a.reg(Register::V0.number()));
    if i.opcode is SYSCALL && Precompile::of(code) is Some {
        reveal(Cpu::operate);
        reveal(Cpu::dispatch);
        let clk = crate::vm::bumped_clk(a.clk, max_syscall_cycles) as u64;
        let c = (Cpu { clk, delay: false, ..a }).counted(code);
        lemma_call_operands(
            c,
            Precompile::of(code)->Some_0,
            a.reg(Register::A0.number()),
            a.reg(Register::A1.number()),
            total,
        );
    }
}

/// The words peeked before some reads are the preimages of the writes behind those reads.
proof fn lemma_peek_many(
    bus: Bus,
    mid: Bus,
    ptr: u32,
    words: Seq<u32>,
    n: nat,
    ahead: nat,
    clk: u64,
    total: Seq<MemValue>,
)
    requires
        bus is Live,
        mid is Live,
        machine::words_fit(ptr, n),
        mid->Live_0.log.len() == bus->Live_0.log.len() + ahead,
        forall|a: u32| #[trigger]
            mid->Live_0.current(a).value == bus->Live_0.current(a).value,
        begins(mid.write_many(ptr, words, n, clk), total),
    ensures
        shadow(bus, total).peek_many(ptr, n, ahead) == bus.peek_many(ptr, n, ahead),
{
    lemma_writes_log_values(mid, ptr, words, n, n, clk);
    let after = mid.write_many(ptr, words, n, clk);
    let log = after->Live_0.log;
    let start = bus->Live_0.log.len() as int;
    let left = total.skip(start);
    assert forall|i: int| 0 <= i < n implies #[trigger] shadow(bus, total).peek(
        machine::word_at(ptr, i),
        (ahead + i) as nat,
    ) == bus.peek(machine::word_at(ptr, i), (ahead + i) as nat) by {
        let k = start + ahead + i;
        assert(left[ahead + i] == total[k]);
        assert(total.take(log.len() as int)[k] == total[k]);
        assert(log[(start + ahead) + i].value == mid->Live_0.current(machine::word_at(ptr, i)).value);
        assert(memory::addressable(machine::word_at(ptr, i)));
    }
    assert(shadow(bus, total).peek_many(ptr, n, ahead) =~= bus.peek_many(ptr, n, ahead));
}

proof fn lemma_load(r: Cpu, a: Cpu, i: Instruction, total: Seq<MemValue>)
    requires
        mirrors(r, a, total),
        a.load(i).1 is Ok,
        begins(a.load(i).0.bus, total),
    ensures
        begins(a.bus, total),
        tracks(r.load(i), a.load(i), total),
{
    let addr = a.address(i);
    lemma_read(a.bus, (addr - addr % 4) as u32, a.clk, total);
}

proof fn lemma_store(r: Cpu, a: Cpu, i: Instruction, total: Seq<MemValue>)
    requires
        mirrors(r, a, total),
        a.store(i).1 is Ok,
        begins(a.store(i).0.bus, total),
    ensures
        begins(a.bus, total),
        tracks(r.store(i), a.store(i), total),
{
    let addr = a.address(i);
    let aligned = (addr - addr % 4) as u32;
    let v = crate::vm::stored(i.opcode, addr, a.bus.peek(aligned, 0), a.reg(i.op_a));
    lemma_write(a.bus, aligned, v, a.clk, total);
}

proof fn lemma_write_call(r: Cpu, a: Cpu, fd: u32, buf: u32, total: Seq<MemValue>)
    requires
        mirrors(r, a, total),
        a.write_call(fd, buf).1 is Ok,
        begins(a.write_call(fd, buf).0.bus, total),
    ensures
        begins(a.bus, total),
        tracks(r.write_call(fd, buf), a.write_call(fd, buf), total),
{
    reveal(Cpu::write_call);
    let n = a.reg(Register::A2.number()) as nat;
    lemma_many_are_live(a.bus, buf, n, 0);
    lemma_look_bytes(a.bus, buf, n, total);
}

proof fn lemma_sys_write(r: Cpu, a: Cpu, fd: u32, buf: u32, total: Seq<MemValue>)
    requires
        mirrors(r, a, total),
        a.sys_write(fd, buf).1 is Ok,
        begins(a.sys_write(fd, buf).0.bus, total),
    ensures
        begins(a.bus, total),
        tracks(r.sys_write(fd, buf), a.sys_write(fd, buf), total),
{
    reveal(Cpu::sys_write);
    let n = a.reg(Register::A2.number()) as nat;
    lemma_many_are_live(a.bus, buf, n, 0);
    lemma_look_bytes(a.bus, buf, n, total);
}

proof fn lemma_hint_len(r: Cpu, a: Cpu, total: Seq<MemValue>)
    requires
        mirrors(r, a, total),
        a.hint_len_call().1 is Ok,
        begins(a.hint_len_call().0.bus, total),
    ensures
        begins(a.bus, total),
        tracks(r.hint_len_call(), a.hint_len_call(), total),
{
    reveal(Cpu::hint_len_call);
    let ram = a.bus->Live_0;
    lemma_logged(ram, MemValue { clk: a.clk, value: ram.input[0].len() as u32 }, total);
}

proof fn lemma_sha_compress(r: Cpu, a: Cpu, w: u32, h: u32, total: Seq<MemValue>)
    requires
        mirrors(r, a, total),
        a.sha_compress(w, h).1 is Ok,
        begins(a.sha_compress(w, h).0.bus, total),
    ensures
        begins(a.bus, total),
        tracks(r.sha_compress(w, h), a.sha_compress(w, h), total),
{
    reveal(Cpu::sha_compress);
    let (b1, hs) = a.bus.read_many(h, 8, a.clk);
    let (b2, ws) = b1.read_many(w, 64, a.clk);
    lemma_many_are_live(a.bus, h, 8, a.clk);
    lemma_many_are_live(b1, w, 64, a.clk);
    lemma_write_many(b2, h, crate::sha256::compressed(hs, ws), 8, a.clk, total);
    lemma_read_many(b1, w, 64, a.clk, total);
    lemma_read_many(a.bus, h, 8, a.clk, total);
}

proof fn lemma_keccak(r: Cpu, a: Cpu, input: u32, result: u32, total: Seq<MemValue>)
    requires
        mirrors(r, a, total),
        a.keccak_sponge(input, result).1 is Ok,
        begins(a.keccak_sponge(input, result).0.bus, total),
    ensures
        begins(a.bus, total),
        tracks(r.keccak_sponge(input, result), a.keccak_sponge(input, result), total),
{
    reveal(Cpu::keccak_sponge);
    let at = machine::word_at(result, 16);
    let len = a.bus.entry(at).value as nat;
    let b1 = a.bus.read(at, a.clk);
    let (b2, words) = b1.read_many(input, len, a.clk);
    lemma_many_are_live(b1, input, len, a.clk);
    let out = crate::keccak::squeezed(crate::keccak::sponge(words));
    lemma_write_many(b2, result, out, 16, a.clk, total);
    lemma_read_many(b1, input, len, a.clk, total);
    lemma_read(a.bus, at, a.clk, total);
}

proof fn lemma_binary(r: Cpu, a: Cpu, op: Precompile, x: u32, y: u32, total: Seq<MemValue>)
    requires
        mirrors(r, a, total),
        a.binary_call(op, x, y).1 is Ok,
        begins(a.binary_call(op, x, y).0.bus, total),
    ensures
        begins(a.bus, total),
        tracks(r.binary_call(op, x, y), a.binary_call(op, x, y), total),
{
    reveal(Cpu::binary_call);
    let n = op.width();
    let xs = a.bus.peek_many(x, n, n);
    let (b1, ys) = a.bus.read_many(y, n, a.clk);
    let clk = (a.clk + 1) as u64;
    let out = op.binary(xs, ys);
    lemma_reads_keep_values(a.bus, y, n, a.clk);
    lemma_peek_many(a.bus, b1, x, out, n, n, clk, total);
    lemma_write_many(b1, x, out, n, clk, total);
    lemma_read_many(a.bus, y, n, a.clk, total);
}

proof fn lemma_unary(r: Cpu, a: Cpu, op: Precompile, x: u32, total: Seq<MemValue>)
    requires
        mirrors(r, a, total),
        a.unary_call(op, x).1 is Ok,
        begins(a.unary_call(op, x).0.bus, total),
    ensures
        begins(a.bus, total),
        tracks(r.unary_call(op, x), a.unary_call(op, x), total),
{
    reveal(Cpu::unary_call);
    let n = op.width();
    let xs = a.bus.peek_many(x, n, 0);
    let out = op.unary(xs);
    lemma_peek_many(a.bus, a.bus, x, out, n, 0, a.clk, total);
    lemma_write_many(a.bus, x, out, n, a.clk, total);
}

proof fn lemma_decompress(r: Cpu, a: Cpu, op: Precompile, ptr: u32, sign: u32, total: Seq<MemValue>)
    requires
        mirrors(r, a, total),
        a.decompress_call(op, ptr, sign).1 is Ok,
        begins(a.decompress_call(op, ptr, sign).0.bus, total),
    ensures
        begins(a.bus, total),
        tracks(r.decompress_call(op, ptr, sign), a.decompress_call(op, ptr, sign), total),
{
    reveal(Cpu::decompress_call);
    let n = op.width();
    let at = machine::word_at(ptr, n as int);
    let (b1, x) = a.bus.read_many(at, n, a.clk);
    lemma_many_are_live(a.bus, at, n, a.clk);
    lemma_write_many(b1, ptr, op.coordinate(x, sign)->Ok_0, n, a.clk, total);
    lemma_read_many(a.bus, at, n, a.clk, total);
}

proof fn lemma_modular(r: Cpu, a: Cpu, x: u32, y: u32, total: Seq<MemValue>)
    requires
        mirrors(r, a, total),
        a.modular_call(x, y).1 is Ok,
        begins(a.modular_call(x, y).0.bus, total),
    ensures
        begins(a.bus, total),
        tracks(r.modular_call(x, y), a.modular_call(x, y), total),
{
    reveal(Cpu::modular_call);
    let xs = a.bus.peek_many(x, 8, 16);
    let (b1, ys) = a.bus.read_many(y, 8, a.clk);
    let at = machine::word_at(y, 8);
    let (b2, ms) = b1.read_many(at, 8, a.clk);
    let clk = (a.clk + 1) as u64;
    let out = crate::precompiles::modular_product(xs, ys, ms);
    lemma_reads_keep_values(a.bus, y, 8, a.clk);
    lemma_reads_keep_values(b1, at, 8, a.clk);
    lemma_peek_many(a.bus, b2, x, out, 8, 16, clk, total);
    lemma_write_many(b2, x, out, 8, clk, total);
    lemma_read_many(b1, at, 8, a.clk, total);
    lemma_read_many(a.bus, y, 8, a.clk, total);
}

proof fn lemma_wide(r: Cpu, a: Cpu, x: u32, y: u32, total: Seq<MemValue>)
    requires
        mirrors(r, a, total),
        a.wide_call(x, y).1 is Ok,
        begins(a.wide_call(x, y).0.bus, total),
    ensures
        begins(a.bus, total),
        tracks(r.wide_call(x, y), a.wide_call(x, y), total),
{
    reveal(Cpu::wide_call);
    let lo_ptr = a.reg(Register::A2.number());
    let hi_ptr = a.reg(Register::A3.number());
    let (b1, xs) = a.bus.read_many(x, 8, a.clk);
    let (b2, ys) = b1.read_many(y, 64, a.clk);
    let clk = (a.clk + 1) as u64;
    let (lo, hi) = crate::precompiles::wide_product(xs, ys);
    let b3 = b2.write_many(lo_ptr, lo, 64, clk);
    lemma_many_are_live(a.bus, x, 8, a.clk);
    lemma_many_are_live(b1, y, 64, a.clk);
    lemma_many_are_live(b2, lo_ptr, 64, clk);
    lemma_write_many(b3, hi_ptr, hi, 8, clk, total);
    lemma_write_many(b2, lo_ptr, lo, 64, clk, total);
    lemma_read_many(b1, y, 64, a.clk, total);
    lemma_read_many(a.bus, x, 8, a.clk, total);
}

proof fn lemma_dispatch(
    r: Cpu,
    a: Cpu,
    program: Program,
    code: SyscallCode,
    arg1: u32,
    arg2: u32,
    total: Seq<MemValue>,
)
    requires
        mirrors(r, a, total),
        a.dispatch(program, code, arg1, arg2).1 is Ok,
        begins(a.dispatch(program, code, arg1, arg2).0.bus, total),
    ensures
        begins(a.bus, total),
        tracks(
            r.dispatch(program, code, arg1, arg2),
            a.dispatch(program, code, arg1, arg2),
            total,
        ),
{
    reveal(Cpu::dispatch);
    match code {
        SyscallCode::WRITE => {
            lemma_write_call(r, a, arg1, arg2, total);
        },
        SyscallCode::SYSHINTLEN => {
            lemma_hint_len(r, a, total);
        },
        SyscallCode::SHA_COMPRESS => {
            lemma_sha_compress(r, a, arg1, arg2, total);
        },
        SyscallCode::SHA_EXTEND => {
            reveal(Cpu::sha_extend);
            lemma_extend(a.bus, arg1, 64, a.clk, total);
        },
        SyscallCode::KECCAK_SPONGE => {
            lemma_keccak(r, a, arg1, arg2, total);
        },
        SyscallCode::SYS_WRITE => {
            lemma_sys_write(r, a, arg1, arg2, total);
        },
        _ => {
            if let Some(op) = Precompile::of(code) {
                match op.shape() {
                    Shape::Binary => {
                        lemma_binary(r, a, op, arg1, arg2, total);
                    },
                    Shape::Unary => {
                        lemma_unary(r, a, op, arg1, total);
                    },
                    Shape::Decompress => {
                        lemma_decompress(r, a, op, arg1, arg2, total);
                    },
                    Shape::Modular => {
                        lemma_modular(r, a, arg1, arg2, total);
                    },
                    Shape::Wide => {
                        lemma_wide(r, a, arg1, arg2, total);
                    },
                }
            }
        },
    }
}

proof fn lemma_syscall(r: Cpu, a: Cpu, program: Program, total: Seq<MemValue>)
    requires
        mirrors(r, a, total),
        a.syscall(program).1 is Ok,
        begins(a.syscall(program).0.bus, total),
    ensures
        begins(a.bus, total),
        tracks(r.syscall(program), a.syscall(program), total),
{
    let code = SyscallCode::decode(a.reg(Register::V0.number()));
    let arg1 = a.reg(Register::A0.number());
    let arg2 = a.reg(Register::A1.number());
    lemma_dispatch(r.counted(code), a.counted(code), program, code, arg1, arg2, total);
}

proof fn lemma_operate(r: Cpu, a: Cpu, program: Program, i: Instruction, total: Seq<MemValue>)
    requires
        mirrors(r, a, total),
        a.operate(program, i).1 is Ok,
        begins(a.operate(program, i).0.bus, total),
    ensures
        begins(a.bus, total),
        tracks(r.operate(program, i), a.operate(program, i), total),
{
    reveal(Cpu::operate);
    let ra = Cpu { delay: false, ..r };
    let aa = Cpu { delay: false, ..a };
    match i.opcode.class() {
        OpClass::Load => {
            lemma_load(ra, aa, i, total);
        },
        OpClass::Store => {
            lemma_store(ra, aa, i, total);
        },
        OpClass::Syscall => {
            lemma_syscall(ra, aa, program, total);
        },
        _ => {},
    }
}

pub proof fn lemma_retired(c: Cpu, program: Program, i: Instruction)
    ensures
        c.operate(program, i).0.retired == c.retired,
{
    reveal(Cpu::operate);
    let start = Cpu { delay: false, ..c };
    let code = SyscallCode::decode(start.reg(Register::V0.number()));
    let arg1 = start.reg(Register::A0.number());
    let arg2 = start.reg(Register::A1.number());
    lemma_dispatch_retired(start.counted(code), program, code, arg1, arg2);
}

proof fn lemma_dispatch_retired(c: Cpu, program: Program, code: SyscallCode, arg1: u32, arg2: u32)
    ensures
        c.dispatch(program, code, arg1, arg2).0.retired == c.retired,
{
    reveal(Cpu::dispatch);
    reveal(Cpu::write_call);
    reveal(Cpu::sys_write);
    reveal(Cpu::hint_len_call);
    reveal(Cpu::sha_compress);
    reveal(Cpu::sha_extend);
    reveal(Cpu::keccak_sponge);
    reveal(Cpu::binary_call);
    reveal(Cpu::unary_call);
    reveal(Cpu::decompress_call);
    reveal(Cpu::modular_call);
    reveal(Cpu::wide_call);
}

/// A replayed instruction does what the live one did, if that one succeeded.
pub proof fn replay_tracks_a_step(
    r: Cpu,
    a: Cpu,
    program: Program,
    max_syscall_cycles: u32,
    total: Seq<MemValue>,
)
    requires
        mirrors(r, a, total),
        a.step(program, max_syscall_cycles).1 is Ok,
        begins(a.step(program, max_syscall_cycles).0.bus, total),
    ensures
        begins(a.bus, total),
        tracks(r.step(program, max_syscall_cycles), a.step(program, max_syscall_cycles), total),
{
    let i = program.at(a.pc);
    let clk = crate::vm::bumped_clk(a.clk, max_syscall_cycles) as u64;
    let ra = Cpu { clk, ..r };
    let aa = Cpu { clk, ..a };
    lemma_operate(ra, aa, program, i, total);
    lemma_retired(ra, program, i);
    lemma_retired(aa, program, i);
}

pub proof fn lemma_steps(
    r: Cpu,
    a: Cpu,
    program: Program,
    max_syscall_cycles: u32,
    n: nat,
    total: Seq<MemValue>,
)
    requires
        mirrors(r, a, total),
        a.steps(program, max_syscall_cycles, n) matches Some(b) && begins(b.bus, total),
    ensures
        begins(a.bus, total),
        r.steps(program, max_syscall_cycles, n) matches Some(s) && mirrors(
            s,
            a.steps(program, max_syscall_cycles, n)->Some_0,
            total,
        ),
    decreases n,
{
    if n > 0 {
        let m = (n - 1) as nat;
        let mid = a.steps(program, max_syscall_cycles, m)->Some_0;
        lemma_steps_are_live(a, program, max_syscall_cycles, m);
        // The log before the last step is the beginning of the log after it.
        let stand_in = Cpu { bus: shadow(mid.bus, total), ..mid };
        replay_tracks_a_step(stand_in, mid, program, max_syscall_cycles, total);
        lemma_steps(r, a, program, max_syscall_cycles, m, total);
        let rm = r.steps(program, max_syscall_cycles, m)->Some_0;
        replay_tracks_a_step(rm, mid, program, max_syscall_cycles, total);
    }
}

pub proof fn lemma_steps_are_live(a: Cpu, program: Program, max_syscall_cycles: u32, n: nat)
    requires
        a.bus is Live,
    ensures
        a.steps(program, max_syscall_cycles, n) matches Some(b) ==> b.bus is Live,
    decreases n,
{
    if n > 0 {
        lemma_steps_are_live(a, program, max_syscall_cycles, (n - 1) as nat);
        if let Some(mid) = a.steps(program, max_syscall_cycles, (n - 1) as nat) {
            let i = program.at(mid.pc);
            let start = Cpu {
                clk: crate::vm::bumped_clk(mid.clk, max_syscall_cycles) as u64,
                ..mid
            };
            lemma_operate_is_live(start, program, i);
        }
    }
}

pub proof fn lemma_operate_is_live(c: Cpu, program: Program, i: Instruction)
    requires
        c.bus is Live,
    ensures
        c.operate(program, i).0.bus is Live,
{
    reveal(Cpu::operate);
    let start = Cpu { delay: false, ..c };
    let code = SyscallCode::decode(start.reg(Register::V0.number()));
    let arg1 = start.reg(Register::A0.number());
    let arg2 = start.reg(Register::A1.number());
    lemma_dispatch_is_live(start.counted(code), program, code, arg1, arg2);
}

proof fn lemma_dispatch_is_live(c: Cpu, program: Program, code: SyscallCode, arg1: u32, arg2: u32)
    requires
        c.bus is Live,
    ensures
        c.dispatch(program, code, arg1, arg2).0.bus is Live,
{
    reveal(Cpu::dispatch);
    reveal(Cpu::write_call);
    reveal(Cpu::sys_write);
    reveal(Cpu::hint_len_call);
    reveal(Cpu::sha_compress);
    reveal(Cpu::sha_extend);
    reveal(Cpu::keccak_sponge);
    reveal(Cpu::binary_call);
    reveal(Cpu::unary_call);
    reveal(Cpu::decompress_call);
    reveal(Cpu::modular_call);
    reveal(Cpu::wide_call);
    assert forall|bus: Bus, ptr: u32, n: nat, clk: u64| bus is Live implies #[trigger]
        bus.read_many(ptr, n, clk).0 is Live by {
        lemma_many_are_live(bus, ptr, n, clk);
    }
    assert forall|bus: Bus, ptr: u32, n: nat| bus is Live implies #[trigger] bus.look_bytes(
        ptr,
        n,
    ).0 is Live by {
        lemma_many_are_live(bus, ptr, n, 0);
    }
    assert forall|bus: Bus, ptr: u32, n: nat, clk: u64| bus is Live implies #[trigger]
        bus.extend_schedule(ptr, n, clk) is Live by {
        lemma_many_are_live(bus, ptr, n, clk);
    }
    assert forall|bus: Bus, ptr: u32, words: Seq<u32>, n: nat, clk: u64| bus is Live implies #[trigger]
        bus.write_many(ptr, words, n, clk) is Live by {
        lemma_many_are_live(bus, ptr, n, clk);
    }
}

/// The central law: the log of a run is all that is needed to repeat it.
///
/// Take a live machine at the start of a chunk, its log empty, and let it retire `n` instructions.
/// A machine that starts with the same registers, program counters and clock, reads memory values
/// from the log of that run instead of memory, and has produced and counted nothing yet, retires
/// the same `n` instructions: it ends with the same registers, program counters, clock, delay-slot
/// flag and unconstrained block, and has used up the log exactly.
pub proof fn replay_reproduces_a_run(
    live: Cpu,
    replayed: Cpu,
    program: Program,
    max_syscall_cycles: u32,
    n: nat,
    end: Cpu,
)
    requires
        live.bus matches Bus::Live(ram) && ram.log.len() == 0,
        live.steps(program, max_syscall_cycles, n) == Some(end),
        replayed.regs == live.regs,
        replayed.pc == live.pc,
        replayed.next_pc == live.next_pc,
        replayed.clk == live.clk,
        replayed.delay == live.delay,
        replayed.exited == live.exited,
        replayed.fork == live.fork,
        replayed.retired <= live.retired,
        replayed.bus == Bus::Replay(end.bus->Live_0.log),
    ensures
        replayed.steps(program, max_syscall_cycles, n) matches Some(s) && {
            &&& s.regs == end.regs
            &&& s.pc == end.pc
            &&& s.next_pc == end.next_pc
            &&& s.clk == end.clk
            &&& s.delay == end.delay
            &&& s.exited == end.exited
            &&& s.fork == end.fork
            &&& s.bus == Bus::Replay(Seq::empty())
        },
{
    let total = end.bus->Live_0.log;
    lemma_steps_are_live(live, program, max_syscall_cycles, n);
    assert(total.take(total.len() as int) =~= total);
    assert(total.skip(0) =~= total);
    assert(total.skip(total.len() as int) =~= Seq::<MemValue>::empty());
    lemma_steps(replayed, live, program, max_syscall_cycles, n, total);
}

/// A memory comes after another in the same run: more of the log is used up, or the log is longer.
#[verifier::opaque]
pub open spec fn follows(a: Bus, b: Bus) -> bool {
    match (a, b) {
        (Bus::Live(first), Bus::Live(second)) => first.log.len() <= second.log.len()
            && second.log.take(first.log.len() as int) == first.log,
        (Bus::Replay(first), Bus::Replay(second)) => second.len() <= first.len() && first.skip(
            first.len() - second.len(),
        ) == second,
        _ => false,
    }
}

proof fn lemma_follows()
    ensures
        forall|a: Bus| #[trigger] follows(a, a),
        forall|a: Bus, b: Bus, c: Bus| #[trigger]
            follows(a, b) && #[trigger] follows(b, c) ==> follows(a, c),
        forall|a: Bus, addr: u32, clk: u64| follows(a, #[trigger] a.read(addr, clk)),
        forall|a: Bus, addr: u32, value: u32, clk: u64|
            follows(a, #[trigger] a.write(addr, value, clk)),
        forall|a: Bus, addr: u32| follows(a, #[trigger] a.look(addr)),
        forall|a: Bus| follows(a, #[trigger] a.enter()),
        forall|a: Bus| follows(a, #[trigger] a.exit()),
        forall|a: Bus, clk: u64| follows(a, #[trigger] a.hint_len(clk).0),
        forall|a: Bus, ptr: u32, len: u32| follows(a, #[trigger] a.hint_read(ptr, len).0),
        forall|a: Bus, fd: u32, bytes: Seq<u8>| follows(a, #[trigger] a.write_fd(fd, bytes).0),
{
    reveal(follows);
    assert forall|a: Bus| #[trigger] follows(a, a) by {
        match a {
            Bus::Live(ram) => {
                assert(ram.log.take(ram.log.len() as int) =~= ram.log);
            },
            Bus::Replay(left) => {
                assert(left.skip(0) =~= left);
            },
        }
    }
    assert forall|a: Bus, b: Bus, c: Bus| #[trigger]
        follows(a, b) && #[trigger] follows(b, c) implies follows(a, c) by {
        match (a, c) {
            (Bus::Live(first), Bus::Live(last)) => {
                assert(last.log.take(first.log.len() as int) =~= last.log.take(
                    b->Live_0.log.len() as int,
                ).take(first.log.len() as int));
            },
            (Bus::Replay(first), Bus::Replay(last)) => {
                let mid = b->Replay_0;
                assert(first.skip(first.len() - last.len()) =~= first.skip(
                    first.len() - mid.len(),
                ).skip(mid.len() - last.len()));
            },
            _ => {},
        }
    }
    assert forall|log: Seq<MemValue>, e: MemValue| #[trigger]
        log.push(e).take(log.len() as int) == log by {
        assert(log.push(e).take(log.len() as int) =~= log);
    }
    assert forall|log: Seq<MemValue>| #[trigger] log.take(log.len() as int) == log by {
        assert(log.take(log.len() as int) =~= log);
    }
    assert forall|left: Seq<MemValue>| left.skip(left.len() - #[trigger] machine::rest(left).len())
        == machine::rest(left) by {
        if left.len() == 0 {
            assert(left.skip(0) =~= left);
        }
    }
    assert forall|left: Seq<MemValue>| #[trigger] left.skip(left.len() - left.len()) == left by {
        assert(left.skip(0) =~= left);
    }
}

proof fn lemma_many_follow(bus: Bus, ptr: u32, n: nat, clk: u64)
    ensures
        follows(bus, bus.read_many(ptr, n, clk).0),
        follows(bus, bus.look_bytes(ptr, n).0),
        follows(bus, bus.extend_schedule(ptr, n, clk)),
        forall|words: Seq<u32>| follows(bus, #[trigger] bus.write_many(ptr, words, n, clk)),
    decreases n,
{
    lemma_follows();
    if n > 0 {
        lemma_many_follow(bus, ptr, (n - 1) as nat, clk);
        assert forall|words: Seq<u32>| follows(bus, #[trigger] bus.write_many(ptr, words, n, clk)) by {
            assert(follows(bus, bus.write_many(ptr, words, (n - 1) as nat, clk)));
        }
    }
}

proof fn lemma_all_follow()
    ensures
        forall|bus: Bus, ptr: u32, n: nat, clk: u64| follows(
            bus,
            #[trigger] bus.read_many(ptr, n, clk).0,
        ),
        forall|bus: Bus, ptr: u32, n: nat| follows(bus, #[trigger] bus.look_bytes(ptr, n).0),
        forall|bus: Bus, ptr: u32, n: nat, clk: u64| follows(
            bus,
            #[trigger] bus.extend_schedule(ptr, n, clk),
        ),
        forall|bus: Bus, ptr: u32, words: Seq<u32>, n: nat, clk: u64| follows(
            bus,
            #[trigger] bus.write_many(ptr, words, n, clk),
        ),
{
    assert forall|bus: Bus, ptr: u32, n: nat, clk: u64| follows(
        bus,
        #[trigger] bus.read_many(ptr, n, clk).0,
    ) by {
        lemma_many_follow(bus, ptr, n, clk);
    }
    assert forall|bus: Bus, ptr: u32, n: nat| follows(bus, #[trigger] bus.look_bytes(ptr, n).0) by {
        lemma_many_follow(bus, ptr, n, 0);
    }
    assert forall|bus: Bus, ptr: u32, n: nat, clk: u64| follows(
        bus,
        #[trigger] bus.extend_schedule(ptr, n, clk),
    ) by {
        lemma_many_follow(bus, ptr, n, clk);
    }
    assert forall|bus: Bus, ptr: u32, words: Seq<u32>, n: nat, clk: u64| follows(
        bus,
        #[trigger] bus.write_many(ptr, words, n, clk),
    ) by {
        lemma_many_follow(bus, ptr, n, clk);
    }
}

proof fn lemma_calls_follow(c: Cpu, op: Precompile, arg1: u32, arg2: u32)
    ensures
        follows(c.bus, c.write_call(arg1, arg2).0.bus),
        follows(c.bus, c.sys_write(arg1, arg2).0.bus),
        follows(c.bus, c.hint_len_call().0.bus),
        follows(c.bus, c.sha_compress(arg1, arg2).0.bus),
        follows(c.bus, c.sha_extend(arg1).0.bus),
        follows(c.bus, c.keccak_sponge(arg1, arg2).0.bus),
        follows(c.bus, c.binary_call(op, arg1, arg2).0.bus),
        follows(c.bus, c.unary_call(op, arg1).0.bus),
        follows(c.bus, c.decompress_call(op, arg1, arg2).0.bus),
        follows(c.bus, c.modular_call(arg1, arg2).0.bus),
        follows(c.bus, c.wide_call(arg1, arg2).0.bus),
{
    lemma_follows();
    lemma_all_follow();
    assert(follows(c.bus, c.write_call(arg1, arg2).0.bus)) by {
        reveal(Cpu::write_call);
    }
    assert(follows(c.bus, c.sys_write(arg1, arg2).0.bus)) by {
        reveal(Cpu::sys_write);
    }
    assert(follows(c.bus, c.hint_len_call().0.bus)) by {
        reveal(Cpu::hint_len_call);
    }
    assert(follows(c.bus, c.sha_compress(arg1, arg2).0.bus)) by {
        reveal(Cpu::sha_compress);
    }
    assert(follows(c.bus, c.sha_extend(arg1).0.bus)) by {
        reveal(Cpu::sha_extend);
    }
    assert(follows(c.bus, c.keccak_sponge(arg1, arg2).0.bus)) by {
        reveal(Cpu::keccak_sponge);
    }
    assert(follows(c.bus, c.binary_call(op, arg1, arg2).0.bus)) by {
        reveal(Cpu::binary_call);
    }
    assert(follows(c.bus, c.unary_call(op, arg1).0.bus)) by {
        reveal(Cpu::unary_call);
    }
    assert(follows(c.bus, c.decompress_call(op, arg1, arg2).0.bus)) by {
        reveal(Cpu::decompress_call);
    }
    assert(follows(c.bus, c.modular_call(arg1, arg2).0.bus)) by {
        reveal(Cpu::modular_call);
    }
    assert(follows(c.bus, c.wide_call(arg1, arg2).0.bus)) by {
        reveal(Cpu::wide_call);
    }
}

proof fn lemma_dispatch_follows(c: Cpu, program: Program, code: SyscallCode, arg1: u32, arg2: u32)
    ensures
        follows(c.bus, c.dispatch(program, code, arg1, arg2).0.bus),
{
    reveal(Cpu::dispatch);
    lemma_follows();
    lemma_calls_follow(c, Precompile::of(code)->Some_0, arg1, arg2);
}

/// Coming after is transitive.
pub proof fn following_is_transitive(a: Bus, b: Bus, c: Bus)
    requires
        follows(a, b),
        follows(b, c),
    ensures
        follows(a, c),
{
    lemma_follows();
}

/// An instruction never gives log entries back.
pub proof fn a_step_follows(c: Cpu, program: Program, max_syscall_cycles: u32)
    ensures
        follows(c.bus, c.step(program, max_syscall_cycles).0.bus),
{
    reveal(Cpu::operate);
    lemma_follows();
    let start = Cpu {
        clk: crate::vm::bumped_clk(c.clk, max_syscall_cycles) as u64,
        delay: false,
        ..c
    };
    let code = SyscallCode::decode(start.reg(Register::V0.number()));
    let arg1 = start.reg(Register::A0.number());
    let arg2 = start.reg(Register::A1.number());
    lemma_dispatch_follows(start.counted(code), program, code, arg1, arg2);
}

/// A run never gives log entries back.
pub proof fn a_run_follows(c: Cpu, program: Program, max_syscall_cycles: u32, n: nat)
    ensures
        c.steps(program, max_syscall_cycles, n) matches Some(d) ==> follows(c.bus, d.bus),
    decreases n,
{
    lemma_follows();
    if n > 0 {
        a_run_follows(c, program, max_syscall_cycles, (n - 1) as nat);
        if let Some(mid) = c.steps(program, max_syscall_cycles, (n - 1) as nat) {
            a_step_follows(mid, program, max_syscall_cycles);
        }
    }
}

/// Two runs one after the other are one run.
pub proof fn runs_add_up(c: Cpu, program: Program, max_syscall_cycles: u32, m: nat, n: nat)
    ensures
        c.steps(program, max_syscall_cycles, m + n) == (match c.steps(
            program,
            max_syscall_cycles,
            m,
        ) {
            None => None,
            Some(mid) => mid.steps(program, max_syscall_cycles, n),
        }),
    decreases n,
{
    if n > 0 {
        runs_add_up(c, program, max_syscall_cycles, m, (n - 1) as nat);
        assert((m + n - 1) as nat == m + (n - 1) as nat);
    }
}

/// The log of a run is enough to repeat any part of it.
///
/// Take a live machine at the start of a chunk, its log empty. Let it retire `m` instructions and
/// then `n` more. A machine that starts where the live one stands in the middle and reads the part
/// of the log that the `n` instructions left retires those instructions too, ends where the live
/// one ends, and uses up that part exactly.
pub proof fn replay_reproduces_a_part(
    live: Cpu,
    replayed: Cpu,
    program: Program,
    max_syscall_cycles: u32,
    m: nat,
    n: nat,
    mid: Cpu,
    end: Cpu,
)
    requires
        live.bus matches Bus::Live(ram) && ram.log.len() == 0,
        live.steps(program, max_syscall_cycles, m) == Some(mid),
        mid.steps(program, max_syscall_cycles, n) == Some(end),
        replayed.regs == mid.regs,
        replayed.pc == mid.pc,
        replayed.next_pc == mid.next_pc,
        replayed.clk == mid.clk,
        replayed.delay == mid.delay,
        replayed.exited == mid.exited,
        replayed.fork == mid.fork,
        replayed.retired <= mid.retired,
        replayed.bus == Bus::Replay(
            end.bus->Live_0.log.subrange(
                mid.bus->Live_0.log.len() as int,
                end.bus->Live_0.log.len() as int,
            ),
        ),
    ensures
        mid.bus->Live_0.log.len() <= end.bus->Live_0.log.len(),
        replayed.steps(program, max_syscall_cycles, n) matches Some(s) && {
            &&& s.regs == end.regs
            &&& s.pc == end.pc
            &&& s.next_pc == end.next_pc
            &&& s.clk == end.clk
            &&& s.delay == end.delay
            &&& s.exited == end.exited
            &&& s.fork == end.fork
            &&& s.bus == Bus::Replay(Seq::empty())
        },
{
    let total = end.bus->Live_0.log;
    lemma_steps_are_live(live, program, max_syscall_cycles, m);
    lemma_steps_are_live(mid, program, max_syscall_cycles, n);
    a_run_follows(mid, program, max_syscall_cycles, n);
    reveal(follows);
    assert(total.take(total.len() as int) =~= total);
    assert(total.skip(mid.bus->Live_0.log.len() as int) =~= total.subrange(
        mid.bus->Live_0.log.len() as int,
        total.len() as int,
    ));
    assert(total.skip(total.len() as int) =~= Seq::<MemValue>::empty());
    lemma_steps(replayed, mid, program, max_syscall_cycles, n, total);
}

/// A machine that replays a whole chunk passes through the same states as the live one, and where
/// it stands, the entries still to come are those that the live one had yet to log.
pub proof fn replay_keeps_pace(
    live: Cpu,
    replayed: Cpu,
    program: Program,
    max_syscall_cycles: u32,
    m: nat,
    n: nat,
    mid: Cpu,
    end: Cpu,
)
    requires
        live.bus matches Bus::Live(ram) && ram.log.len() == 0,
        live.steps(program, max_syscall_cycles, m) == Some(mid),
        mid.steps(program, max_syscall_cycles, n) == Some(end),
        replayed.regs == live.regs,
        replayed.pc == live.pc,
        replayed.next_pc == live.next_pc,
        replayed.clk == live.clk,
        replayed.delay == live.delay,
        replayed.exited == live.exited,
        replayed.fork == live.fork,
        replayed.retired <= live.retired,
        replayed.bus == Bus::Replay(end.bus->Live_0.log),
    ensures
        mid.bus->Live_0.log.len() <= end.bus->Live_0.log.len(),
        replayed.steps(program, max_syscall_cycles, m) matches Some(s) && {
            &&& s.regs == mid.regs
            &&& s.pc == mid.pc
            &&& s.next_pc == mid.next_pc
            &&& s.clk == mid.clk
            &&& s.delay == mid.delay
            &&& s.exited == mid.exited
            &&& s.fork == mid.fork
            &&& s.bus == Bus::Replay(
                end.bus->Live_0.log.skip(mid.bus->Live_0.log.len() as int),
            )
        },
{
    let total = end.bus->Live_0.log;
    lemma_steps_are_live(live, program, max_syscall_cycles, m);
    lemma_steps_are_live(mid, program, max_syscall_cycles, n);
    a_run_follows(mid, program, max_syscall_cycles, n);
    reveal(follows);
    assert(total.skip(0) =~= total);
    lemma_steps(replayed, live, program, max_syscall_cycles, m, total);
}

/// A live memory with older entries in front of its log.
#[verifier::opaque]
pub open spec fn relogged(older: Seq<MemValue>, bus: Bus) -> Bus {
    match bus {
        Bus::Live(ram) => Bus::Live(Ram { log: older + ram.log, ..ram }),
        Bus::Replay(left) => bus,
    }
}

/// A machine with older entries in front of its log.
pub open spec fn relogged_cpu(older: Seq<MemValue>, c: Cpu) -> Cpu {
    c.with_bus(relogged(older, c.bus))
}

proof fn lemma_relogged(older: Seq<MemValue>)
    ensures
        forall|a: Bus, addr: u32, clk: u64| #[trigger]
            relogged(older, a).read(addr, clk) == relogged(older, a.read(addr, clk)),
        forall|a: Bus, addr: u32| #[trigger] relogged(older, a).entry(addr) == a.entry(addr),
        forall|a: Bus, addr: u32, value: u32, clk: u64| #[trigger]
            relogged(older, a).write(addr, value, clk) == relogged(older, a.write(addr, value, clk)),
        forall|a: Bus, addr: u32| #[trigger] relogged(older, a).seen(addr) == a.seen(addr),
        forall|a: Bus, addr: u32| #[trigger]
            relogged(older, a).look(addr) == relogged(older, a.look(addr)),
        forall|a: Bus, addr: u32, ahead: nat| #[trigger]
            relogged(older, a).peek(addr, ahead) == a.peek(addr, ahead),
        forall|a: Bus, ptr: u32, n: nat, ahead: nat| #[trigger]
            relogged(older, a).peek_many(ptr, n, ahead) == a.peek_many(ptr, n, ahead),
        forall|a: Bus| #[trigger] relogged(older, a).enter() == relogged(older, a.enter()),
        forall|a: Bus| #[trigger] relogged(older, a).exit() == relogged(older, a.exit()),
        forall|a: Bus, clk: u64| #[trigger]
            relogged(older, a).hint_len(clk) == (
                relogged(older, a.hint_len(clk).0),
                a.hint_len(clk).1,
            ),
        forall|a: Bus, ptr: u32, len: u32| #[trigger]
            relogged(older, a).hint_read(ptr, len) == (
                relogged(older, a.hint_read(ptr, len).0),
                a.hint_read(ptr, len).1,
            ),
        forall|a: Bus, fd: u32, bytes: Seq<u8>| #[trigger]
            relogged(older, a).write_fd(fd, bytes) == (
                relogged(older, a.write_fd(fd, bytes).0),
                a.write_fd(fd, bytes).1,
            ),
{
    reveal(relogged);
    assert forall|log: Seq<MemValue>, e: MemValue| #[trigger]
        (older + log).push(e) == older + log.push(e) by {
        assert((older + log).push(e) =~= older + log.push(e));
    }
    assert forall|a: Bus, addr: u32| #[trigger] relogged(older, a).entry(addr) == a.entry(addr) by {
        lemma_relogged_current(older, a, addr);
    }
    assert forall|a: Bus, addr: u32| #[trigger] relogged(older, a).seen(addr) == a.seen(addr) by {
        lemma_relogged_current(older, a, addr);
    }
    assert forall|a: Bus, addr: u32, clk: u64| #[trigger]
        relogged(older, a).read(addr, clk) == relogged(older, a.read(addr, clk)) by {
        lemma_relogged_current(older, a, addr);
    }
    assert forall|a: Bus, addr: u32, value: u32, clk: u64| #[trigger]
        relogged(older, a).write(addr, value, clk) == relogged(older, a.write(addr, value, clk)) by {
        lemma_relogged_current(older, a, addr);
    }
    assert forall|a: Bus, addr: u32| #[trigger]
        relogged(older, a).look(addr) == relogged(older, a.look(addr)) by {
        lemma_relogged_current(older, a, addr);
    }
    assert forall|a: Bus, addr: u32, ahead: nat| #[trigger]
        relogged(older, a).peek(addr, ahead) == a.peek(addr, ahead) by {
        lemma_relogged_current(older, a, addr);
    }
    assert forall|a: Bus, ptr: u32, n: nat, ahead: nat| #[trigger]
        relogged(older, a).peek_many(ptr, n, ahead) == a.peek_many(ptr, n, ahead) by {
        assert(relogged(older, a).peek_many(ptr, n, ahead) =~= a.peek_many(ptr, n, ahead));
    }
}

proof fn lemma_relogged_current(older: Seq<MemValue>, a: Bus, addr: u32)
    ensures
        a is Live ==> relogged(older, a)->Live_0.current(addr) == a->Live_0.current(addr),
        a is Live ==> relogged(older, a)->Live_0.plain(addr) == a->Live_0.plain(addr),
{
    reveal(relogged);
}

proof fn lemma_relogged_many(older: Seq<MemValue>, bus: Bus, ptr: u32, n: nat, clk: u64)
    ensures
        relogged(older, bus).read_many(ptr, n, clk) == (
            relogged(older, bus.read_many(ptr, n, clk).0),
            bus.read_many(ptr, n, clk).1,
        ),
        relogged(older, bus).look_bytes(ptr, n) == (
            relogged(older, bus.look_bytes(ptr, n).0),
            bus.look_bytes(ptr, n).1,
        ),
        relogged(older, bus).extend_schedule(ptr, n, clk) == relogged(
            older,
            bus.extend_schedule(ptr, n, clk),
        ),
        forall|words: Seq<u32>| #[trigger]
            relogged(older, bus).write_many(ptr, words, n, clk) == relogged(
                older,
                bus.write_many(ptr, words, n, clk),
            ),
    decreases n,
{
    lemma_relogged(older);
    if n > 0 {
        let m = (n - 1) as nat;
        lemma_relogged_many(older, bus, ptr, m, clk);
        assert forall|words: Seq<u32>| #[trigger]
            relogged(older, bus).write_many(ptr, words, n, clk) == relogged(
                older,
                bus.write_many(ptr, words, n, clk),
            ) by {
            assert(relogged(older, bus).write_many(ptr, words, m, clk) == relogged(
                older,
                bus.write_many(ptr, words, m, clk),
            ));
        }
    }
}

proof fn lemma_all_relogged(older: Seq<MemValue>)
    ensures
        forall|bus: Bus, ptr: u32, n: nat, clk: u64| #[trigger]
            relogged(older, bus).read_many(ptr, n, clk) == (
                relogged(older, bus.read_many(ptr, n, clk).0),
                bus.read_many(ptr, n, clk).1,
            ),
        forall|bus: Bus, ptr: u32, n: nat| #[trigger]
            relogged(older, bus).look_bytes(ptr, n) == (
                relogged(older, bus.look_bytes(ptr, n).0),
                bus.look_bytes(ptr, n).1,
            ),
        forall|bus: Bus, ptr: u32, n: nat, clk: u64| #[trigger]
            relogged(older, bus).extend_schedule(ptr, n, clk) == relogged(
                older,
                bus.extend_schedule(ptr, n, clk),
            ),
        forall|bus: Bus, ptr: u32, words: Seq<u32>, n: nat, clk: u64| #[trigger]
            relogged(older, bus).write_many(ptr, words, n, clk) == relogged(
                older,
                bus.write_many(ptr, words, n, clk),
            ),
{
    assert forall|bus: Bus, ptr: u32, n: nat, clk: u64| #[trigger]
        relogged(older, bus).read_many(ptr, n, clk) == (
            relogged(older, bus.read_many(ptr, n, clk).0),
            bus.read_many(ptr, n, clk).1,
        ) by {
        lemma_relogged_many(older, bus, ptr, n, clk);
    }
    assert forall|bus: Bus, ptr: u32, n: nat| #[trigger]
        relogged(older, bus).look_bytes(ptr, n) == (
            relogged(older, bus.look_bytes(ptr, n).0),
            bus.look_bytes(ptr, n).1,
        ) by {
        lemma_relogged_many(older, bus, ptr, n, 0);
    }
    assert forall|bus: Bus, ptr: u32, n: nat, clk: u64| #[trigger]
        relogged(older, bus).extend_schedule(ptr, n, clk) == relogged(
            older,
            bus.extend_schedule(ptr, n, clk),
        ) by {
        lemma_relogged_many(older, bus, ptr, n, clk);
    }
    assert forall|bus: Bus, ptr: u32, words: Seq<u32>, n: nat, clk: u64| #[trigger]
        relogged(older, bus).write_many(ptr, words, n, clk) == relogged(
            older,
            bus.write_many(ptr, words, n, clk),
        ) by {
        lemma_relogged_many(older, bus, ptr, n, clk);
    }
}

/// An operation does the same with older entries in front of the log.
spec fn relogs<T>(
    older: Seq<MemValue>,
    with: (Cpu, Result<T, ExecutionError>),
    without: (Cpu, Result<T, ExecutionError>),
) -> bool {
    &&& with.1 == without.1
    &&& with.0 == relogged_cpu(older, without.0)
}

proof fn lemma_relogged_calls(older: Seq<MemValue>, c: Cpu, op: Precompile, arg1: u32, arg2: u32)
    ensures
        relogs(older, relogged_cpu(older, c).write_call(arg1, arg2), c.write_call(arg1, arg2)),
        relogs(older, relogged_cpu(older, c).sys_write(arg1, arg2), c.sys_write(arg1, arg2)),
        relogs(older, relogged_cpu(older, c).hint_len_call(), c.hint_len_call()),
        relogs(older, relogged_cpu(older, c).sha_compress(arg1, arg2), c.sha_compress(arg1, arg2)),
        relogs(older, relogged_cpu(older, c).sha_extend(arg1), c.sha_extend(arg1)),
        relogs(older, relogged_cpu(older, c).keccak_sponge(arg1, arg2), c.keccak_sponge(arg1, arg2)),
        relogs(older, relogged_cpu(older, c).binary_call(op, arg1, arg2), c.binary_call(op, arg1, arg2)),
        relogs(older, relogged_cpu(older, c).unary_call(op, arg1), c.unary_call(op, arg1)),
        relogs(older, relogged_cpu(older, c).decompress_call(op, arg1, arg2), c.decompress_call(op, arg1, arg2)),
        relogs(older, relogged_cpu(older, c).modular_call(arg1, arg2), c.modular_call(arg1, arg2)),
        relogs(older, relogged_cpu(older, c).wide_call(arg1, arg2), c.wide_call(arg1, arg2)),
{
    lemma_relogged(older);
    lemma_all_relogged(older);
    assert(relogs(older, relogged_cpu(older, c).write_call(arg1, arg2), c.write_call(arg1, arg2))) by {
        reveal(Cpu::write_call);
    }
    assert(relogs(older, relogged_cpu(older, c).sys_write(arg1, arg2), c.sys_write(arg1, arg2))) by {
        reveal(Cpu::sys_write);
    }
    assert(relogs(older, relogged_cpu(older, c).hint_len_call(), c.hint_len_call())) by {
        reveal(Cpu::hint_len_call);
    }
    assert(relogs(older, relogged_cpu(older, c).sha_compress(arg1, arg2), c.sha_compress(arg1, arg2))) by {
        reveal(Cpu::sha_compress);
    }
    assert(relogs(older, relogged_cpu(older, c).sha_extend(arg1), c.sha_extend(arg1))) by {
        reveal(Cpu::sha_extend);
    }
    assert(relogs(older, relogged_cpu(older, c).keccak_sponge(arg1, arg2), c.keccak_sponge(arg1, arg2))) by {
        reveal(Cpu::keccak_sponge);
    }
    assert(relogs(older, relogged_cpu(older, c).binary_call(op, arg1, arg2), c.binary_call(op, arg1, arg2))) by {
        reveal(Cpu::binary_call);
    }
    assert(relogs(older, relogged_cpu(older, c).unary_call(op, arg1), c.unary_call(op, arg1))) by {
        reveal(Cpu::unary_call);
    }
    assert(relogs(older, relogged_cpu(older, c).decompress_call(op, arg1, arg2), c.decompress_call(op, arg1, arg2))) by {
        reveal(Cpu::decompress_call);
    }
    assert(relogs(older, relogged_cpu(older, c).modular_call(arg1, arg2), c.modular_call(arg1, arg2))) by {
        reveal(Cpu::modular_call);
    }
    assert(relogs(older, relogged_cpu(older, c).wide_call(arg1, arg2), c.wide_call(arg1, arg2))) by {
        reveal(Cpu::wide_call);
    }
}

proof fn lemma_relogged_precompile(
    older: Seq<MemValue>,
    c: Cpu,
    op: Precompile,
    arg1: u32,
    arg2: u32,
)
    ensures
        relogs(older, relogged_cpu(older, c).binary_call(op, arg1, arg2), c.binary_call(op, arg1, arg2)),
        relogs(older, relogged_cpu(older, c).unary_call(op, arg1), c.unary_call(op, arg1)),
        relogs(older, relogged_cpu(older, c).decompress_call(op, arg1, arg2), c.decompress_call(op, arg1, arg2)),
        relogs(older, relogged_cpu(older, c).modular_call(arg1, arg2), c.modular_call(arg1, arg2)),
        relogs(older, relogged_cpu(older, c).wide_call(arg1, arg2), c.wide_call(arg1, arg2)),
{
    lemma_relogged_calls(older, c, op, arg1, arg2);
}

proof fn lemma_relogged_hints(older: Seq<MemValue>, c: Cpu, arg1: u32, arg2: u32)
    ensures
        relogs(older, relogged_cpu(older, c).hint_read_call(arg1, arg2), c.hint_read_call(arg1, arg2)),
{
    lemma_relogged(older);
}

proof fn lemma_relogged_blocks(older: Seq<MemValue>, c: Cpu)
    ensures
        relogs(older, relogged_cpu(older, c).enter_call(), c.enter_call()),
        relogs(older, relogged_cpu(older, c).exit_call(), c.exit_call()),
{
    lemma_relogged(older);
}

#[verifier::spinoff_prover]
proof fn lemma_relogged_dispatch(
    older: Seq<MemValue>,
    c: Cpu,
    program: Program,
    code: SyscallCode,
    arg1: u32,
    arg2: u32,
)
    ensures
        relogs(
            older,
            relogged_cpu(older, c).dispatch(program, code, arg1, arg2),
            c.dispatch(program, code, arg1, arg2),
        ),
{
    reveal(Cpu::dispatch);
    match code {
        SyscallCode::WRITE
        | SyscallCode::SYSHINTLEN
        | SyscallCode::SHA_COMPRESS
        | SyscallCode::SHA_EXTEND
        | SyscallCode::KECCAK_SPONGE
        | SyscallCode::SYS_WRITE => {
            lemma_relogged_calls(older, c, Precompile::of(code)->Some_0, arg1, arg2);
        },
        SyscallCode::SYSHINTREAD => {
            lemma_relogged_hints(older, c, arg1, arg2);
        },
        SyscallCode::ENTER_UNCONSTRAINED | SyscallCode::EXIT_UNCONSTRAINED => {
            lemma_relogged_blocks(older, c);
        },
        _ => {
            if let Some(op) = Precompile::of(code) {
                lemma_relogged_precompile(older, c, op, arg1, arg2);
            }
        },
    }
}

proof fn lemma_relogged_operate(older: Seq<MemValue>, c: Cpu, program: Program, i: Instruction)
    ensures
        relogs(older, relogged_cpu(older, c).operate(program, i), c.operate(program, i)),
{
    reveal(Cpu::operate);
    let start = Cpu { delay: false, ..c };
    match i.opcode.class() {
        OpClass::Load => {
            lemma_relogged(older);
            assert(relogs(older, relogged_cpu(older, start).load(i), start.load(i)));
        },
        OpClass::Store => {
            lemma_relogged(older);
            assert(relogs(older, relogged_cpu(older, start).store(i), start.store(i)));
        },
        OpClass::Syscall => {
            let code = SyscallCode::decode(start.reg(Register::V0.number()));
            let arg1 = start.reg(Register::A0.number());
            let arg2 = start.reg(Register::A1.number());
            lemma_relogged_dispatch(older, start.counted(code), program, code, arg1, arg2);
        },
        _ => {},
    }
}

pub proof fn lemma_relogged_step(
    older: Seq<MemValue>,
    c: Cpu,
    program: Program,
    max_syscall_cycles: u32,
)
    ensures
        relogged_cpu(older, c).step(program, max_syscall_cycles).1 == c.step(
            program,
            max_syscall_cycles,
        ).1,
        relogged_cpu(older, c).step(program, max_syscall_cycles).0 == relogged_cpu(
            older,
            c.step(program, max_syscall_cycles).0,
        ),
{
    let start = Cpu { clk: crate::vm::bumped_clk(c.clk, max_syscall_cycles) as u64, ..c };
    lemma_relogged_operate(older, start, program, program.at(c.pc));
}

/// Emptying the log does not disturb a run: it goes on as it would have, and what it logs from
/// there on is what it would have logged behind the entries taken out.
pub proof fn taking_the_log_changes_nothing(
    older: Seq<MemValue>,
    c: Cpu,
    program: Program,
    max_syscall_cycles: u32,
    n: nat,
)
    ensures
        relogged_cpu(older, c).steps(program, max_syscall_cycles, n) == (match c.steps(
            program,
            max_syscall_cycles,
            n,
        ) {
            None => None,
            Some(d) => Some(relogged_cpu(older, d)),
        }),
    decreases n,
{
    if n > 0 {
        taking_the_log_changes_nothing(older, c, program, max_syscall_cycles, (n - 1) as nat);
        if let Some(mid) = c.steps(program, max_syscall_cycles, (n - 1) as nat) {
            lemma_relogged_step(older, mid, program, max_syscall_cycles);
        }
    }
}

} // verus!
