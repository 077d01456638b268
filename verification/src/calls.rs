//! Laws of the system calls: what a call leaves in memory and in the registers, in terms of what
//! it found there.
use vstd::prelude::*;

use crate::bigint;
use crate::errors::ExecutionError;
use crate::keccak;
use crate::machine::{self, Bus, Cpu};
use crate::memory;
use crate::precompiles::{self, Precompile, Shape};
use crate::program::Program;
use crate::register::Register;
use crate::sha256;
use crate::syscalls::SyscallCode;
use crate::vm;

verus! {

/// The value of the word `i` places after an address.
pub open spec fn word(bus: Bus, ptr: u32, i: int) -> u32 {
    bus.entry(machine::word_at(ptr, i)).value
}

/// The values of `n` words from an address on.
pub open spec fn words(bus: Bus, ptr: u32, n: nat) -> Seq<u32> {
    Seq::new(n, |i: int| word(bus, ptr, i))
}

/// An address belongs to none of `n` words from another address on.
pub open spec fn outside(addr: u32, ptr: u32, n: nat) -> bool {
    addr / 4 < ptr / 4 || ptr / 4 + n <= addr / 4
}

/// The words outside the given ones keep their values.
pub open spec fn keeps_outside(before: Bus, after: Bus, ptr: u32, n: nat) -> bool {
    forall|addr: u32|
        outside(addr, ptr, n) ==> #[trigger] after.entry(addr).value == before.entry(addr).value
}

proof fn lemma_read_many(bus: Bus, ptr: u32, n: nat, clk: u64)
    requires
        bus is Live,
        machine::words_fit(ptr, n),
    ensures
        bus.read_many(ptr, n, clk).0 is Live,
        bus.read_many(ptr, n, clk).1 == words(bus, ptr, n),
        forall|addr: u32| #[trigger]
            bus.read_many(ptr, n, clk).0.entry(addr).value == bus.entry(addr).value,
    decreases n,
{
    if n > 0 {
        lemma_read_many(bus, ptr, (n - 1) as nat, clk);
        let before = bus.read_many(ptr, (n - 1) as nat, clk).0;
        assert forall|addr: u32| #[trigger]
            bus.read_many(ptr, n, clk).0.entry(addr).value == bus.entry(addr).value by {
            assert(before.entry(addr).value == bus.entry(addr).value);
        }
        assert(words(bus, ptr, n) =~= words(bus, ptr, (n - 1) as nat).push(word(bus, ptr, n - 1)));
    } else {
        assert(words(bus, ptr, 0) =~= Seq::empty());
    }
}

proof fn lemma_write_many(bus: Bus, ptr: u32, list: Seq<u32>, n: nat, clk: u64)
    requires
        bus is Live,
        machine::words_fit(ptr, n),
        n <= list.len(),
    ensures
        bus.write_many(ptr, list, n, clk) is Live,
        words(bus.write_many(ptr, list, n, clk), ptr, n) == list.take(n as int),
        keeps_outside(bus, bus.write_many(ptr, list, n, clk), ptr, n),
    decreases n,
{
    if n > 0 {
        let m = (n - 1) as nat;
        lemma_write_many(bus, ptr, list, m, clk);
        let before = bus.write_many(ptr, list, m, clk);
        let after = bus.write_many(ptr, list, n, clk);
        let last = machine::word_at(ptr, n - 1);
        assert forall|i: int| 0 <= i < n implies #[trigger] word(after, ptr, i) == list[i] by {
            if i < n - 1 {
                let a = machine::word_at(ptr, i);
                assert(memory::slot(a) != memory::slot(last));
                assert(words(before, ptr, m)[i] == list.take(m as int)[i]);
            }
        }
        assert(words(after, ptr, n) =~= list.take(n as int));
        assert forall|addr: u32| outside(addr, ptr, n) implies #[trigger] after.entry(addr).value
            == bus.entry(addr).value by {
            assert(outside(addr, ptr, m));
            assert(memory::slot(addr) != memory::slot(last));
            assert(before.entry(addr).value == bus.entry(addr).value);
        }
    } else {
        assert(words(bus, ptr, 0) =~= list.take(0));
    }
}

proof fn lemma_peek_many(bus: Bus, ptr: u32, n: nat, ahead: nat)
    requires
        bus is Live,
        machine::words_fit(ptr, n),
    ensures
        bus.peek_many(ptr, n, ahead) == words(bus, ptr, n),
{
    assert(bus.peek_many(ptr, n, ahead) =~= words(bus, ptr, n));
}

proof fn lemma_binary_len(op: Precompile, x: Seq<u32>, y: Seq<u32>)
    requires
        op.shape() == Shape::Binary,
        x.len() == op.width(),
    ensures
        op.binary(x, y).len() == op.width(),
{
    match op {
        Precompile::EcAdd(f) => {
            let r = precompiles::curve_sum(
                precompiles::point(x, f.width()),
                precompiles::point(y, f.width()),
                f.prime(),
            );
            bigint::lemma_words_of_len(r.0, f.width());
            bigint::lemma_words_of_len(r.1, f.width());
        },
        Precompile::EdAdd => {
            let r = precompiles::edwards_sum(
                precompiles::point(x, 8),
                precompiles::point(y, 8),
                bigint::value(precompiles::ED25519_D@),
                precompiles::Field::Ed25519.prime(),
            );
            bigint::lemma_words_of_len(r.0, 8);
            bigint::lemma_words_of_len(r.1, 8);
        },
        Precompile::Fp2(f, o) => {
            let r = precompiles::extension_result(
                o,
                precompiles::point(x, f.width()),
                precompiles::point(y, f.width()),
                f.prime(),
            );
            bigint::lemma_words_of_len(r.0, f.width());
            bigint::lemma_words_of_len(r.1, f.width());
        },
        Precompile::Fp(f, o) => {
            bigint::lemma_words_of_len(
                precompiles::field_result(o, bigint::value(x), bigint::value(y), f.prime()),
                f.width(),
            );
        },
        _ => {},
    }
}

proof fn lemma_binary_dispatch(c: Cpu, program: Program, code: SyscallCode, x_ptr: u32, y_ptr: u32)
    requires
        Precompile::of(code) is Some,
        Precompile::of(code)->Some_0.shape() == Shape::Binary,
    ensures
        c.dispatch(program, code, x_ptr, y_ptr) == c.binary_call(
            Precompile::of(code)->Some_0,
            x_ptr,
            y_ptr,
        ),
{
    reveal(Cpu::dispatch);
}

proof fn lemma_binary_call(c: Cpu, op: Precompile, x_ptr: u32, y_ptr: u32)
    requires
        c.bus is Live,
        op.shape() == Shape::Binary,
    ensures
        ({
            let n = op.width();
            let (d, r) = c.binary_call(op, x_ptr, y_ptr);
            &&& r is Ok <==> machine::words_fit(x_ptr, n) && machine::words_fit(y_ptr, n)
            &&& r is Ok ==> {
                &&& d.bus is Live
                &&& words(d.bus, x_ptr, n) == op.binary(
                    words(c.bus, x_ptr, n),
                    words(c.bus, y_ptr, n),
                )
                &&& keeps_outside(c.bus, d.bus, x_ptr, n)
                &&& d.regs == c.regs
                &&& d.clk == (c.clk + 1) as u64
            }
        }),
{
    reveal(Cpu::binary_call);
    let n = op.width();
    if machine::words_fit(x_ptr, n) && machine::words_fit(y_ptr, n) {
        lemma_peek_many(c.bus, x_ptr, n, n);
        lemma_read_many(c.bus, y_ptr, n, c.clk);
        let x = words(c.bus, x_ptr, n);
        let y = words(c.bus, y_ptr, n);
        lemma_binary_len(op, x, y);
        let b1 = c.bus.read_many(y_ptr, n, c.clk).0;
        let r = op.binary(x, y);
        lemma_write_many(b1, x_ptr, r, n, (c.clk + 1) as u64);
        assert(r.take(n as int) =~= r);
    }
}

/// An operation on two operands puts its result in the place of the first and leaves the second
/// and the rest of memory as they were, whether the operands overlap or not. It succeeds exactly if
/// both operands lie in memory.
pub proof fn a_binary_operation_replaces_its_first_operand(
    c: Cpu,
    program: Program,
    code: SyscallCode,
    x_ptr: u32,
    y_ptr: u32,
)
    requires
        c.bus is Live,
        Precompile::of(code) is Some,
        Precompile::of(code)->Some_0.shape() == Shape::Binary,
    ensures
        ({
            let op = Precompile::of(code)->Some_0;
            let n = op.width();
            let (d, r) = c.dispatch(program, code, x_ptr, y_ptr);
            &&& r is Ok <==> machine::words_fit(x_ptr, n) && machine::words_fit(y_ptr, n)
            &&& r is Ok ==> {
                &&& d.bus is Live
                &&& words(d.bus, x_ptr, n) == op.binary(
                    words(c.bus, x_ptr, n),
                    words(c.bus, y_ptr, n),
                )
                &&& keeps_outside(c.bus, d.bus, x_ptr, n)
                &&& d.regs == c.regs
                &&& d.clk == (c.clk + 1) as u64
            }
        }),
{
    lemma_binary_dispatch(c, program, code, x_ptr, y_ptr);
    lemma_binary_call(c, Precompile::of(code)->Some_0, x_ptr, y_ptr);
}

/// Doubling puts the double of a point in the point's place and leaves the rest of memory as it
/// was. It succeeds exactly if the point lies in memory.
pub proof fn doubling_replaces_the_point(
    c: Cpu,
    program: Program,
    code: SyscallCode,
    x_ptr: u32,
    arg2: u32,
)
    requires
        c.bus is Live,
        Precompile::of(code) is Some,
        Precompile::of(code)->Some_0 is EcDouble,
    ensures
        ({
            let op = Precompile::of(code)->Some_0;
            let n = op.width();
            let (d, r) = c.dispatch(program, code, x_ptr, arg2);
            &&& r is Ok <==> machine::words_fit(x_ptr, n)
            &&& r is Ok ==> {
                &&& d.bus is Live
                &&& words(d.bus, x_ptr, n) == op.unary(words(c.bus, x_ptr, n))
                &&& keeps_outside(c.bus, d.bus, x_ptr, n)
                &&& d.regs == c.regs
                &&& d.clk == c.clk
            }
        }),
{
    reveal(Cpu::dispatch);
    reveal(Cpu::unary_call);
    let op = Precompile::of(code)->Some_0;
    let n = op.width();
    if machine::words_fit(x_ptr, n) {
        lemma_peek_many(c.bus, x_ptr, n, 0);
        let x = words(c.bus, x_ptr, n);
        let r = op.unary(x);
        if let Precompile::EcDouble(f) = op {
            let p = precompiles::curve_double(
                precompiles::point(x, f.width()),
                f.linear(),
                f.prime(),
            );
            bigint::lemma_words_of_len(p.0, f.width());
            bigint::lemma_words_of_len(p.1, f.width());
        }
        lemma_write_many(c.bus, x_ptr, r, n, c.clk);
        assert(r.take(n as int) =~= r);
    }
}

/// Decompressing finds one coordinate of a point behind the place of the other, which it fills; the
/// rest of memory stays. Where no point has the coordinate the call fails and memory keeps its
/// values.
pub proof fn decompressing_fills_the_missing_coordinate(
    c: Cpu,
    program: Program,
    code: SyscallCode,
    ptr: u32,
    sign: u32,
)
    requires
        c.bus is Live,
        Precompile::of(code) is Some,
        Precompile::of(code)->Some_0.shape() == Shape::Decompress,
    ensures
        ({
            let op = Precompile::of(code)->Some_0;
            let n = op.width();
            let (d, r) = c.dispatch(program, code, ptr, sign);
            let known = words(c.bus, machine::word_at(ptr, n as int), n);
            &&& r is Ok <==> machine::words_fit(ptr, 2 * n) && op.coordinate(known, sign) is Ok
            &&& r is Ok ==> {
                &&& d.bus is Live
                &&& words(d.bus, ptr, n) == op.coordinate(known, sign)->Ok_0
                &&& keeps_outside(c.bus, d.bus, ptr, n)
                &&& d.regs == c.regs
            }
            &&& machine::words_fit(ptr, 2 * n) ==> match op.coordinate(known, sign) {
                Ok(_) => true,
                Err(e) => r == Err::<machine::Effect, ExecutionError>(ExecutionError::CurveError(e)),
            }
        }),
{
    reveal(Cpu::dispatch);
    reveal(Cpu::decompress_call);
    let op = Precompile::of(code)->Some_0;
    let n = op.width();
    if machine::words_fit(ptr, 2 * n) {
        let behind = machine::word_at(ptr, n as int);
        assert(machine::words_fit(behind, n));
        lemma_read_many(c.bus, behind, n, c.clk);
        let known = words(c.bus, behind, n);
        if let Ok(list) = op.coordinate(known, sign) {
            match op {
                Precompile::EcDecompress(f) => {
                    bigint::lemma_words_of_len(
                        precompiles::decompressed(f, bigint::value(known), sign)->Ok_0,
                        f.width(),
                    );
                },
                _ => {
                    bigint::lemma_words_of_len(
                        precompiles::edwards_decompressed(
                            bigint::value(precompiles::unsigned_ordinate(known)),
                            sign,
                        )->Ok_0,
                        8,
                    );
                },
            }
            lemma_write_many(c.bus.read_many(behind, n, c.clk).0, ptr, list, n, c.clk);
            assert(list.take(n as int) =~= list);
        }
    }
}

/// A modular product replaces the first factor: it is the product of the two numbers at the two
/// addresses modulo the number behind the second, or modulo `2^256` if that is zero.
pub proof fn a_modular_product_replaces_its_first_factor(
    c: Cpu,
    program: Program,
    x_ptr: u32,
    y_ptr: u32,
)
    requires
        c.bus is Live,
    ensures
        ({
            let (d, r) = c.dispatch(program, SyscallCode::UINT256_MUL, x_ptr, y_ptr);
            let x = bigint::value(words(c.bus, x_ptr, 8));
            let y = bigint::value(words(c.bus, y_ptr, 8));
            let m = bigint::value(words(c.bus, machine::word_at(y_ptr, 8), 8));
            let base = 0x1_0000_0000_0000_0000_0000_0000_0000_0000_0000_0000_0000_0000_0000_0000_0000_0000nat;
            let product = bigint::value(words(d.bus, x_ptr, 8));
            &&& r is Ok <==> machine::words_fit(x_ptr, 8) && machine::words_fit(y_ptr, 16)
            &&& r is Ok ==> {
                &&& d.bus is Live
                &&& product == if m == 0 {
                    (x * y) % base
                } else {
                    (x * y) % m
                }
                &&& keeps_outside(c.bus, d.bus, x_ptr, 8)
                &&& d.regs == c.regs
            }
        }),
{
    reveal(Cpu::dispatch);
    reveal(Cpu::modular_call);
    if machine::words_fit(x_ptr, 8) && machine::words_fit(y_ptr, 16) {
        let behind = machine::word_at(y_ptr, 8);
        assert(machine::words_fit(behind, 8));
        lemma_peek_many(c.bus, x_ptr, 8, 16);
        lemma_read_many(c.bus, y_ptr, 8, c.clk);
        let b1 = c.bus.read_many(y_ptr, 8, c.clk).0;
        lemma_read_many(b1, behind, 8, c.clk);
        let b2 = b1.read_many(behind, 8, c.clk).0;
        assert(words(b1, behind, 8) =~= words(c.bus, behind, 8));
        let x = words(c.bus, x_ptr, 8);
        let y = words(c.bus, y_ptr, 8);
        let m = words(c.bus, behind, 8);
        let v = bigint::value(x) * bigint::value(y);
        let r = precompiles::modular_product(x, y, m);
        bigint::lemma_words_of_len(v, 8);
        bigint::lemma_words_of_len(v % bigint::value(m), 8);
        lemma_write_many(b2, x_ptr, r, 8, (c.clk + 1) as u64);
        assert(r.take(8) =~= r);
        if bigint::value(m) == 0 {
            lemma_low_words(v, 8);
            lemma_base_to_the_eighth();
        } else {
            precompiles::modular_product_is_exact(x, y, m);
        }
    }
}

proof fn lemma_base_to_the_eighth()
    ensures
        vstd::arithmetic::power::pow(bigint::BASE as int, 8)
            == 0x1_0000_0000_0000_0000_0000_0000_0000_0000_0000_0000_0000_0000_0000_0000_0000_0000int,
{
    reveal(vstd::arithmetic::power::pow);
    reveal_with_fuel(vstd::arithmetic::power::pow, 9);
}

/// The low words of a number hold the number modulo a power of the base.
proof fn lemma_low_words(v: nat, n: nat)
    ensures
        bigint::value(bigint::words_of(v, n)) == v % (vstd::arithmetic::power::pow(
            bigint::BASE as int,
            n,
        ) as nat),
        vstd::arithmetic::power::pow(bigint::BASE as int, n) > 0,
{
    let p = vstd::arithmetic::power::pow(bigint::BASE as int, n);
    vstd::arithmetic::power::lemma_pow_positive(bigint::BASE as int, n);
    let r = (v as int % p) as nat;
    bigint::words_round_trip(r, n);
    let q = (v as int / p) as nat;
    assert(v == q * p + r) by (nonlinear_arith)
        requires
            p > 0,
            q == v as int / p,
            r == v as int % p,
    ;
    lemma_same_low_words(r, q, n);
}

proof fn lemma_same_low_words(r: nat, q: nat, n: nat)
    ensures
        bigint::words_of((q * vstd::arithmetic::power::pow(bigint::BASE as int, n) + r) as nat, n)
            == bigint::words_of(r, n),
    decreases n,
{
    reveal(vstd::arithmetic::power::pow);
    vstd::arithmetic::power::lemma_pow_positive(bigint::BASE as int, n);
    if n > 0 {
        let m = (n - 1) as nat;
        let b = bigint::BASE as int;
        let p = vstd::arithmetic::power::pow(b, m);
        vstd::arithmetic::power::lemma_pow_positive(b, m);
        assert(vstd::arithmetic::power::pow(b, n) == b * p);
        let k = q * p;
        let v = q * (b * p) + r;
        assert(v == b * k + r) by (nonlinear_arith)
            requires
                v == q * (b * p) + r,
                k == q * p,
        ;
        assert(k >= 0) by (nonlinear_arith)
            requires
                k == q * p,
                q >= 0,
                p > 0,
        ;
        assert(b == 0x1_0000_0000);
        assert(v % b == r as int % b);
        assert(v / b == k + r as int / b);
        lemma_same_low_words(r / (bigint::BASE as nat), q, m);
    }
}

/// A wide product goes to the two addresses in the third and fourth argument registers: its low
/// 2048 bits to the one and the 256 bits above to the other, if those do not overlap.
pub proof fn a_wide_product_is_split_over_two_places(
    c: Cpu,
    program: Program,
    a_ptr: u32,
    b_ptr: u32,
)
    requires
        c.bus is Live,
    ensures
        ({
            let lo_ptr = c.reg(Register::A2.number());
            let hi_ptr = c.reg(Register::A3.number());
            let (d, r) = c.dispatch(program, SyscallCode::U256XU2048_MUL, a_ptr, b_ptr);
            let a = bigint::value(words(c.bus, a_ptr, 8));
            let b = bigint::value(words(c.bus, b_ptr, 64));
            &&& r is Ok <==> machine::words_fit(a_ptr, 8) && machine::words_fit(b_ptr, 64)
                && machine::words_fit(lo_ptr, 64) && machine::words_fit(hi_ptr, 8)
            &&& r is Ok && (lo_ptr / 4 + 64 <= hi_ptr / 4 || hi_ptr / 4 + 8 <= lo_ptr / 4) ==> {
                &&& d.bus is Live
                &&& bigint::value(words(d.bus, lo_ptr, 64) + words(d.bus, hi_ptr, 8)) == a * b
                &&& forall|addr: u32|
                    outside(addr, lo_ptr, 64) && outside(addr, hi_ptr, 8) ==> #[trigger] d.bus.entry(
                        addr,
                    ).value == c.bus.entry(addr).value
                &&& d.regs == c.regs
            }
        }),
{
    reveal(Cpu::dispatch);
    reveal(Cpu::wide_call);
    let lo_ptr = c.reg(Register::A2.number());
    let hi_ptr = c.reg(Register::A3.number());
    if machine::words_fit(a_ptr, 8) && machine::words_fit(b_ptr, 64) && machine::words_fit(
        lo_ptr,
        64,
    ) && machine::words_fit(hi_ptr, 8) && (lo_ptr / 4 + 64 <= hi_ptr / 4 || hi_ptr / 4 + 8 <= lo_ptr
        / 4) {
        let a = words(c.bus, a_ptr, 8);
        let b = words(c.bus, b_ptr, 64);
        lemma_read_many(c.bus, a_ptr, 8, c.clk);
        let b1 = c.bus.read_many(a_ptr, 8, c.clk).0;
        lemma_read_many(b1, b_ptr, 64, c.clk);
        let b2 = b1.read_many(b_ptr, 64, c.clk).0;
        assert(words(b1, b_ptr, 64) =~= b);
        let v = bigint::value(a) * bigint::value(b);
        let all = bigint::words_of(v, 72);
        bigint::lemma_words_of_len(v, 72);
        bigint::lemma_value_bound(a);
        bigint::lemma_value_bound(b);
        let p = vstd::arithmetic::power::pow(bigint::BASE as int, 8);
        let q = vstd::arithmetic::power::pow(bigint::BASE as int, 64);
        vstd::arithmetic::power::lemma_pow_adds(bigint::BASE as int, 8, 64);
        assert(v < p * q) by (nonlinear_arith)
            requires
                v == bigint::value(a) * bigint::value(b),
                bigint::value(a) < p,
                bigint::value(b) < q,
        ;
        bigint::words_round_trip(v, 72);
        let clk = (c.clk + 1) as u64;
        let lo = all.take(64);
        let hi = all.skip(64);
        lemma_write_many(b2, lo_ptr, lo, 64, clk);
        let b3 = b2.write_many(lo_ptr, lo, 64, clk);
        lemma_write_many(b3, hi_ptr, hi, 8, clk);
        let b4 = b3.write_many(hi_ptr, hi, 8, clk);
        assert(hi.take(8) =~= hi);
        assert(lo.take(64) =~= lo);
        assert(words(b4, lo_ptr, 64) =~= words(b3, lo_ptr, 64)) by {
            assert forall|i: int| 0 <= i < 64 implies #[trigger] word(b4, lo_ptr, i) == word(
                b3,
                lo_ptr,
                i,
            ) by {
                assert(outside(machine::word_at(lo_ptr, i), hi_ptr, 8));
            }
        }
        assert(lo + hi =~= all);
        assert forall|addr: u32|
            outside(addr, lo_ptr, 64) && outside(
                addr,
                hi_ptr,
                8,
            ) implies #[trigger] b4.entry(addr).value == c.bus.entry(addr).value by {
            assert(b4.entry(addr).value == b3.entry(addr).value);
            assert(b3.entry(addr).value == b2.entry(addr).value);
            assert(b2.entry(addr).value == b1.entry(addr).value);
        }
    }
}

/// Compressing replaces the hash state at the second address by the one that the schedule at the
/// first address takes it to.
pub proof fn compressing_replaces_the_state(c: Cpu, program: Program, w_ptr: u32, h_ptr: u32)
    requires
        c.bus is Live,
    ensures
        ({
            let (d, r) = c.dispatch(program, SyscallCode::SHA_COMPRESS, w_ptr, h_ptr);
            &&& r is Ok <==> machine::words_fit(w_ptr, 64) && machine::words_fit(h_ptr, 8)
            &&& r is Ok ==> {
                &&& d.bus is Live
                &&& words(d.bus, h_ptr, 8) == sha256::compressed(
                    words(c.bus, h_ptr, 8),
                    words(c.bus, w_ptr, 64),
                )
                &&& keeps_outside(c.bus, d.bus, h_ptr, 8)
                &&& d.regs == c.regs
            }
        }),
{
    reveal(Cpu::dispatch);
    reveal(Cpu::sha_compress);
    if machine::words_fit(w_ptr, 64) && machine::words_fit(h_ptr, 8) {
        lemma_read_many(c.bus, h_ptr, 8, c.clk);
        let b1 = c.bus.read_many(h_ptr, 8, c.clk).0;
        lemma_read_many(b1, w_ptr, 64, c.clk);
        let b2 = b1.read_many(w_ptr, 64, c.clk).0;
        assert(words(b1, w_ptr, 64) =~= words(c.bus, w_ptr, 64));
        let h = words(c.bus, h_ptr, 8);
        let w = words(c.bus, w_ptr, 64);
        let r = sha256::compressed(h, w);
        assert(r.len() == 8);
        lemma_write_many(b2, h_ptr, r, 8, c.clk);
        assert(r.take(8) =~= r);
    }
}

/// One more word of a schedule.
proof fn lemma_extend_step(bus: Bus, ptr: u32, n: nat, clk: u64)
    requires
        bus.extend_schedule(ptr, (n - 1) as nat, clk) is Live,
        machine::words_fit(ptr, 64),
        16 < n <= 64,
    ensures
        ({
            let before = bus.extend_schedule(ptr, (n - 1) as nat, clk);
            let after = bus.extend_schedule(ptr, n, clk);
            &&& after is Live
            &&& forall|addr: u32|
                addr / 4 != ptr / 4 + (n - 1) ==> #[trigger] after.entry(addr).value
                    == before.entry(addr).value
            &&& word(after, ptr, n - 1) == sha256::schedule_word(
                word(before, ptr, n - 16),
                word(before, ptr, n - 3),
                word(before, ptr, n - 17),
                word(before, ptr, n - 8),
            )
        }),
{
    let before = bus.extend_schedule(ptr, (n - 1) as nat, clk);
    let after = bus.extend_schedule(ptr, n, clk);
    let b1 = before.read(machine::word_at(ptr, n - 16), clk);
    assert forall|addr: u32| #[trigger] b1.entry(addr).value == before.entry(addr).value by {}
    let b2 = b1.read(machine::word_at(ptr, n - 3), clk);
    assert forall|addr: u32| #[trigger] b2.entry(addr).value == before.entry(addr).value by {
        assert(b1.entry(addr).value == before.entry(addr).value);
    }
    let b3 = b2.read(machine::word_at(ptr, n - 17), clk);
    assert forall|addr: u32| #[trigger] b3.entry(addr).value == before.entry(addr).value by {
        assert(b2.entry(addr).value == before.entry(addr).value);
    }
    let b4 = b3.read(machine::word_at(ptr, n - 8), clk);
    assert forall|addr: u32| #[trigger] b4.entry(addr).value == before.entry(addr).value by {
        assert(b3.entry(addr).value == before.entry(addr).value);
    }
    assert forall|addr: u32|
        addr / 4 != ptr / 4 + (n - 1) implies #[trigger] after.entry(addr).value == before.entry(
        addr,
    ).value by {
        assert(memory::slot(addr) != memory::slot(machine::word_at(ptr, n - 1)));
        assert(b4.entry(addr).value == before.entry(addr).value);
    }
}

/// The words of a schedule after it is extended up to word `n`.
proof fn lemma_extend(bus: Bus, ptr: u32, n: nat, clk: u64)
    requires
        bus is Live,
        machine::words_fit(ptr, 64),
        16 <= n <= 64,
    ensures
        ({
            let after = bus.extend_schedule(ptr, n, clk);
            &&& after is Live
            &&& forall|addr: u32|
                outside(addr, machine::word_at(ptr, 16), (n - 16) as nat)
                    ==> #[trigger] after.entry(addr).value == bus.entry(addr).value
            &&& forall|i: int|
                16 <= i < n ==> #[trigger] word(after, ptr, i) == sha256::schedule_word(
                    word(after, ptr, i - 15),
                    word(after, ptr, i - 2),
                    word(after, ptr, i - 16),
                    word(after, ptr, i - 7),
                )
        }),
    decreases n,
{
    if n > 16 {
        let m = (n - 1) as nat;
        lemma_extend(bus, ptr, m, clk);
        lemma_extend_step(bus, ptr, n, clk);
        lemma_extend_whole(
            bus,
            bus.extend_schedule(ptr, m, clk),
            bus.extend_schedule(ptr, n, clk),
            ptr,
            n,
        );
    }
}

proof fn lemma_extend_whole(bus: Bus, before: Bus, after: Bus, ptr: u32, n: nat)
    requires
        machine::words_fit(ptr, 64),
        16 < n <= 64,
        forall|addr: u32|
            outside(addr, machine::word_at(ptr, 16), (n - 17) as nat)
                ==> #[trigger] before.entry(addr).value == bus.entry(addr).value,
        forall|i: int|
            16 <= i < n - 1 ==> #[trigger] word(before, ptr, i) == sha256::schedule_word(
                word(before, ptr, i - 15),
                word(before, ptr, i - 2),
                word(before, ptr, i - 16),
                word(before, ptr, i - 7),
            ),
        forall|addr: u32|
            addr / 4 != ptr / 4 + (n - 1) ==> #[trigger] after.entry(addr).value == before.entry(
                addr,
            ).value,
        word(after, ptr, n - 1) == sha256::schedule_word(
            word(before, ptr, n - 16),
            word(before, ptr, n - 3),
            word(before, ptr, n - 17),
            word(before, ptr, n - 8),
        ),
    ensures
        forall|addr: u32|
            outside(addr, machine::word_at(ptr, 16), (n - 16) as nat)
                ==> #[trigger] after.entry(addr).value == bus.entry(addr).value,
        forall|i: int|
            16 <= i < n ==> #[trigger] word(after, ptr, i) == sha256::schedule_word(
                word(after, ptr, i - 15),
                word(after, ptr, i - 2),
                word(after, ptr, i - 16),
                word(after, ptr, i - 7),
            ),
{
    assert forall|i: int| 0 <= i < n - 1 implies #[trigger] word(after, ptr, i) == word(
        before,
        ptr,
        i,
    ) by {
        let a = machine::word_at(ptr, i);
        assert(a / 4 == ptr / 4 + i);
        assert(after.entry(a).value == before.entry(a).value);
    }
    assert forall|i: int| 16 <= i < n implies #[trigger] word(after, ptr, i)
        == sha256::schedule_word(
        word(after, ptr, i - 15),
        word(after, ptr, i - 2),
        word(after, ptr, i - 16),
        word(after, ptr, i - 7),
    ) by {
        assert(word(after, ptr, i - 15) == word(before, ptr, i - 15));
        assert(word(after, ptr, i - 2) == word(before, ptr, i - 2));
        assert(word(after, ptr, i - 16) == word(before, ptr, i - 16));
        assert(word(after, ptr, i - 7) == word(before, ptr, i - 7));
        if i < n - 1 {
            assert(word(after, ptr, i) == word(before, ptr, i));
        }
    }
    assert forall|addr: u32|
        outside(
            addr,
            machine::word_at(ptr, 16),
            (n - 16) as nat,
        ) implies #[trigger] after.entry(addr).value == bus.entry(addr).value by {
        assert(outside(addr, machine::word_at(ptr, 16), (n - 17) as nat));
        assert(after.entry(addr).value == before.entry(addr).value);
        assert(before.entry(addr).value == bus.entry(addr).value);
    }
}

/// Extending a message schedule leaves its first 16 words, and makes each of the 48 behind them the
/// one that follows from the words 15, 2, 16 and 7 places before it. The rest of memory stays.
pub proof fn an_extended_schedule_follows_from_its_start(c: Cpu, program: Program, w_ptr: u32, arg2: u32)
    requires
        c.bus is Live,
    ensures
        ({
            let (d, r) = c.dispatch(program, SyscallCode::SHA_EXTEND, w_ptr, arg2);
            &&& r is Ok <==> machine::words_fit(w_ptr, 64)
            &&& r is Ok ==> {
                &&& d.bus is Live
                &&& words(d.bus, w_ptr, 16) == words(c.bus, w_ptr, 16)
                &&& forall|i: int|
                    16 <= i < 64 ==> #[trigger] word(d.bus, w_ptr, i) == sha256::schedule_word(
                        word(d.bus, w_ptr, i - 15),
                        word(d.bus, w_ptr, i - 2),
                        word(d.bus, w_ptr, i - 16),
                        word(d.bus, w_ptr, i - 7),
                    )
                &&& keeps_outside(c.bus, d.bus, machine::word_at(w_ptr, 16), 48)
                &&& d.regs == c.regs
            }
        }),
{
    reveal(Cpu::dispatch);
    reveal(Cpu::sha_extend);
    if machine::words_fit(w_ptr, 64) {
        lemma_extend(c.bus, w_ptr, 64, c.clk);
        let after = c.bus.extend_schedule(w_ptr, 64, c.clk);
        assert forall|i: int| 0 <= i < 16 implies #[trigger] word(after, w_ptr, i) == word(
            c.bus,
            w_ptr,
            i,
        ) by {
            assert(outside(machine::word_at(w_ptr, i), machine::word_at(w_ptr, 16), 48));
        }
        assert(words(after, w_ptr, 16) =~= words(c.bus, w_ptr, 16));
    }
}

/// Hashing puts 16 words that are squeezed out of the sponge over the input at the result's place;
/// the number of input words stands behind it and stays.
pub proof fn hashing_writes_the_sponge_of_the_input(
    c: Cpu,
    program: Program,
    input_ptr: u32,
    result_ptr: u32,
)
    requires
        c.bus is Live,
    ensures
        ({
            let (d, r) = c.dispatch(program, SyscallCode::KECCAK_SPONGE, input_ptr, result_ptr);
            let len = word(c.bus, result_ptr, 16);
            &&& r is Ok <==> machine::words_fit(result_ptr, 17) && machine::words_fit(
                input_ptr,
                len as nat,
            )
            &&& r is Ok ==> {
                let state = keccak::sponge(words(c.bus, input_ptr, len as nat));
                &&& d.bus is Live
                &&& forall|i: int|
                    0 <= i < 8 ==> word(d.bus, result_ptr, 2 * i) + word(
                        d.bus,
                        result_ptr,
                        2 * i + 1,
                    ) * 0x1_0000_0000 == #[trigger] state[i]
                &&& keeps_outside(c.bus, d.bus, result_ptr, 16)
                &&& d.regs == c.regs
            }
        }),
{
    reveal(Cpu::dispatch);
    reveal(Cpu::keccak_sponge);
    let len = word(c.bus, result_ptr, 16);
    if machine::words_fit(result_ptr, 17) && machine::words_fit(input_ptr, len as nat) {
        let b1 = c.bus.read(machine::word_at(result_ptr, 16), c.clk);
        assert forall|addr: u32| #[trigger] b1.entry(addr).value == c.bus.entry(addr).value by {}
        lemma_read_many(b1, input_ptr, len as nat, c.clk);
        let b2 = b1.read_many(input_ptr, len as nat, c.clk).0;
        assert(words(b1, input_ptr, len as nat) =~= words(c.bus, input_ptr, len as nat));
        let state = keccak::sponge(words(c.bus, input_ptr, len as nat));
        let out = keccak::squeezed(state);
        lemma_write_many(b2, result_ptr, out, 16, c.clk);
        let b3 = b2.write_many(result_ptr, out, 16, c.clk);
        assert(out.take(16) =~= out);
        assert forall|i: int| 0 <= i < 8 implies word(b3, result_ptr, 2 * i) + word(
            b3,
            result_ptr,
            2 * i + 1,
        ) * 0x1_0000_0000 == #[trigger] state[i] by {
            assert(words(b3, result_ptr, 16)[2 * i] == out[2 * i]);
            assert(words(b3, result_ptr, 16)[2 * i + 1] == out[2 * i + 1]);
            assert((2 * i) / 2 == i && (2 * i + 1) / 2 == i && (2 * i) % 2 == 0 && (2 * i + 1) % 2
                == 1);
        }
    }
}

/// The byte of memory at an address.
pub open spec fn byte(bus: Bus, addr: u32) -> u8 {
    vm::byte_of(bus.entry(addr).value, addr % 4) as u8
}

/// The bytes of memory from an address on.
pub open spec fn bytes(bus: Bus, ptr: u32, n: nat) -> Seq<u8> {
    Seq::new(n, |i: int| byte(bus, (ptr + i) as u32))
}

/// Looking at bytes shows them: those of words that were accessed before, and all others if seeds
/// count when a word is looked at.
pub open spec fn shown(bus: Bus, ptr: u32, n: nat) -> bool {
    &&& bus is Live
    &&& forall|i: int|
        0 <= i < n ==> bus->Live_0.eager || #[trigger] bus->Live_0.mem.seen.contains_key(
            memory::slot((ptr + i) as u32),
        )
}

proof fn lemma_look_bytes(bus: Bus, ptr: u32, n: nat)
    requires
        machine::bytes_fit(ptr, n),
        shown(bus, ptr, n),
    ensures
        ({
            let (after, list) = bus.look_bytes(ptr, n);
            &&& after is Live
            &&& list == bytes(bus, ptr, n)
            &&& after->Live_0.input == bus->Live_0.input
            &&& after->Live_0.hooks == bus->Live_0.hooks
            &&& after->Live_0.seeds == bus->Live_0.seeds
            &&& after->Live_0.eager == bus->Live_0.eager
            &&& forall|addr: u32| #[trigger] after.entry(addr) == bus.entry(addr)
            &&& forall|k: int| #[trigger]
                bus->Live_0.mem.seen.contains_key(k) ==> after->Live_0.mem.seen.contains_key(k)
        }),
    decreases n,
{
    if n > 0 {
        let m = (n - 1) as nat;
        lemma_look_bytes(bus, ptr, m);
        let (before, list) = bus.look_bytes(ptr, m);
        let addr = (ptr + (n - 1)) as u32;
        let word = (addr - addr % 4) as u32;
        let after = before.look(word);
        assert(memory::slot(word) == memory::slot(addr));
        assert(bus->Live_0.eager || bus->Live_0.mem.seen.contains_key(memory::slot(addr)));
        assert(before.seen(word) == before.entry(word).value);
        assert(before.entry(word) == bus.entry(word));
        assert(bus.entry(word) == bus.entry(addr));
        assert(bytes(bus, ptr, n) =~= bytes(bus, ptr, m).push(byte(bus, addr)));
        assert forall|a: u32| #[trigger] after.entry(a) == bus.entry(a) by {
            assert(before.entry(a) == bus.entry(a));
        }
    } else {
        assert(bytes(bus, ptr, 0) =~= Seq::empty());
    }
}

/// Writing to a file descriptor: the bytes go behind the public values, or as a hint in front of
/// the others, or to a hook whose answers go in front of the hints; the standard outputs and unknown
/// descriptors take them and nothing else happens. No word changes.
pub proof fn writing_passes_the_bytes_on(c: Cpu, program: Program, fd: u32, buf: u32)
    requires
        machine::bytes_fit(buf, c.reg(Register::A2.number()) as nat),
        shown(c.bus, buf, c.reg(Register::A2.number()) as nat),
    ensures
        ({
            let n = c.reg(Register::A2.number()) as nat;
            let (d, r) = c.dispatch(program, SyscallCode::WRITE, fd, buf);
            let input = c.bus->Live_0.input;
            let list = bytes(c.bus, buf, n);
            let hooked = c.bus->Live_0.hooks.contains_key(fd);
            &&& d.bus is Live
            &&& d.regs == c.regs
            &&& forall|addr: u32| #[trigger] d.bus.entry(addr) == c.bus.entry(addr)
            &&& fd == 3 ==> r is Ok && d.output == c.output + list && d.bus->Live_0.input == input
            &&& fd != 3 ==> d.output == c.output
            &&& fd == 1 || fd == 2 ==> r is Ok && d.bus->Live_0.input == input
            &&& fd == 4 ==> r is Ok && d.bus->Live_0.input == seq![list] + input
            &&& fd > 4 && !hooked ==> r is Ok && d.bus->Live_0.input == input
            &&& fd > 4 && hooked ==> match c.bus->Live_0.hooks[fd].response(list) {
                Ok(answers) => r is Ok && d.bus->Live_0.input == answers + input,
                Err(e) => r == Err::<machine::Effect, ExecutionError>(e) && d.bus->Live_0.input
                    == input,
            }
        }),
{
    reveal(Cpu::dispatch);
    reveal(Cpu::write_call);
    let n = c.reg(Register::A2.number()) as nat;
    lemma_look_bytes(c.bus, buf, n);
    let looked = c.bus.look_bytes(buf, n).0;
    let d = c.dispatch(program, SyscallCode::WRITE, fd, buf).0;
    assert forall|addr: u32| #[trigger] d.bus.entry(addr) == c.bus.entry(addr) by {
        assert(looked.entry(addr) == c.bus.entry(addr));
    }
}

/// The write of the operating system keeps the public values only and says how many bytes it took.
pub proof fn a_system_write_takes_all_bytes(c: Cpu, program: Program, fd: u32, buf: u32)
    requires
        c.regs.len() == 36,
        machine::bytes_fit(buf, c.reg(Register::A2.number()) as nat),
        shown(c.bus, buf, c.reg(Register::A2.number()) as nat),
    ensures
        ({
            let n = c.reg(Register::A2.number());
            let (d, r) = c.dispatch(program, SyscallCode::SYS_WRITE, fd, buf);
            &&& r matches Ok(effect) && effect.result == Some(n)
            &&& d.reg(Register::A3.number()) == 0
            &&& d.output == if fd == 3 {
                c.output + bytes(c.bus, buf, n as nat)
            } else {
                c.output
            }
            &&& d.bus is Live
            &&& d.bus->Live_0.input == c.bus->Live_0.input
            &&& forall|addr: u32| #[trigger] d.bus.entry(addr) == c.bus.entry(addr)
        }),
{
    reveal(Cpu::dispatch);
    reveal(Cpu::sys_write);
    lemma_look_bytes(c.bus, buf, c.reg(Register::A2.number()) as nat);
}

/// The length that is told of a hint is that of the one that is read next; telling it changes no
/// word and takes no hint.
pub proof fn the_next_hint_has_the_told_length(c: Cpu, program: Program, arg1: u32, arg2: u32)
    requires
        c.bus is Live,
    ensures
        ({
            let (d, r) = c.dispatch(program, SyscallCode::SYSHINTLEN, arg1, arg2);
            let input = c.bus->Live_0.input;
            &&& r is Ok <==> input.len() > 0
            &&& r matches Ok(effect) ==> effect.result == Some(input[0].len() as u32)
            &&& d.bus is Live
            &&& d.bus->Live_0.input == input
            &&& forall|addr: u32| #[trigger] d.bus.entry(addr) == c.bus.entry(addr)
        }),
{
    reveal(Cpu::dispatch);
    reveal(Cpu::hint_len_call);
}

proof fn lemma_seeded(seeds: Map<int, u32>, ptr: u32, list: Seq<u8>, n: nat)
    requires
        machine::words_fit(ptr, n),
    ensures
        ({
            let (after, fresh) = machine::seeded(seeds, ptr, list, n);
            &&& fresh ==> {
                &&& forall|k: int|
                    ptr as int / 4 <= k < ptr as int / 4 + n ==> #[trigger] after.contains_key(k)
                        && after[k] == machine::hint_word(list, k - ptr as int / 4)
                &&& forall|k: int|
                    k < ptr as int / 4 || ptr as int / 4 + n <= k ==> (#[trigger] after.contains_key(
                        k,
                    ) == seeds.contains_key(k) && after[k] == seeds[k])
            }
            &&& fresh <==> forall|k: int|
                ptr as int / 4 <= k < ptr as int / 4 + n ==> !(#[trigger] seeds.contains_key(k))
        }),
    decreases n,
{
    if n > 0 {
        let m = (n - 1) as nat;
        lemma_seeded(seeds, ptr, list, m);
        let (before, was) = machine::seeded(seeds, ptr, list, m);
        let k = memory::slot(machine::word_at(ptr, n - 1));
        let first = ptr as int / 4;
        assert(k == first + (n - 1));
        let (after, fresh) = machine::seeded(seeds, ptr, list, n);
        if was {
            assert(before.contains_key(k) == seeds.contains_key(k));
            if !before.contains_key(k) {
                assert(after == before.insert(k, machine::hint_word(list, n - 1)));
                assert forall|j: int| first <= j < first + n implies #[trigger] after.contains_key(
                    j,
                ) && after[j] == machine::hint_word(list, j - first) by {
                    if j < k {
                        assert(before.contains_key(j));
                    }
                }
                assert forall|j: int| j < first || first + n <= j implies (
                #[trigger] after.contains_key(j) == seeds.contains_key(j) && after[j]
                    == seeds[j]) by {
                    assert(before.contains_key(j) == seeds.contains_key(j));
                }
            } else {
                assert(seeds.contains_key(k));
            }
        }
    }
}

proof fn lemma_digits(w: int, a: int, b: int, c: int, d: int)
    requires
        0 <= a < 0x100,
        0 <= b < 0x100,
        0 <= c < 0x100,
        0 <= d < 0x100,
        w == a + 0x100 * b + 0x1_0000 * c + 0x100_0000 * d,
    ensures
        a == w % 0x100,
        b == (w / 0x100) % 0x100,
        c == (w / 0x1_0000) % 0x100,
        d == w / 0x100_0000,
{
}

proof fn lemma_hint_word(list: Seq<u8>, i: int, k: u32)
    requires
        k < 4,
        0 <= i,
        4 * i + k < list.len(),
    ensures
        vm::byte_of(machine::hint_word(list, i), k) as u8 == list[4 * i + k],
{
    let w = machine::hint_word(list, i);
    crate::arithmetic::a_word_is_its_bytes(w);
    lemma_digits(
        w as int,
        vm::byte_of(w, 0) as int,
        vm::byte_of(w, 1) as int,
        vm::byte_of(w, 2) as int,
        vm::byte_of(w, 3) as int,
    );
    let b = |j: int|
        if j < list.len() {
            list[j] as int
        } else {
            0
        };
    lemma_digits(
        b(4 * i) + 0x100 * b(4 * i + 1) + 0x1_0000 * b(4 * i + 2) + 0x100_0000 * b(4 * i + 3),
        b(4 * i),
        b(4 * i + 1),
        b(4 * i + 2),
        b(4 * i + 3),
    );
    assert(k == 0 || k == 1 || k == 2 || k == 3);
}

/// A hint that is read lies in memory byte for byte from the given address on, wherever memory was
/// not accessed before, and waits no longer. It must have the given length and be placed at a word,
/// inside memory and on no earlier hint.
pub proof fn a_hint_is_found_in_memory(c: Cpu, program: Program, ptr: u32, len: u32, i: int)
    requires
        c.bus is Live,
        c.bus->Live_0.input.len() > 0,
        0 <= i < c.bus->Live_0.input[0].len(),
    ensures
        ({
            let (d, r) = c.dispatch(program, SyscallCode::SYSHINTREAD, ptr, len);
            let hint = c.bus->Live_0.input[0];
            let at = (ptr + i) as u32;
            &&& d.bus is Live
            &&& d.bus->Live_0.input == c.bus->Live_0.input.skip(1)
            &&& r is Ok && !c.bus->Live_0.mem.seen.contains_key(at as int / 4) ==> byte(d.bus, at)
                == hint[i]
            &&& r is Ok ==> hint.len() as u32 == len && ptr % 4 == 0
            &&& r is Ok ==> forall|addr: u32|
                outside(addr, ptr, ((hint.len() + 3) / 4) as nat) ==> #[trigger] d.bus.entry(addr)
                    == c.bus.entry(addr)
            &&& d.bus->Live_0.mem == c.bus->Live_0.mem
            &&& d.regs == c.regs
        }),
{
    reveal(Cpu::dispatch);
    let hint = c.bus->Live_0.input[0];
    let n = machine::hint_words(hint);
    if hint.len() as u32 == len && ptr % 4 == 0 && machine::words_fit(ptr, n) {
        lemma_seeded(c.bus->Live_0.seeds, ptr, hint, n);
        let at = (ptr + i) as u32;
        let k = (i % 4) as u32;
        lemma_hint_word(hint, i / 4, k);
        let slot = at as int / 4;
        assert(slot == ptr as int / 4 + i / 4);
        assert(at % 4 == k);
        assert(0 <= i / 4 < n);
        let (seeds, fresh) = machine::seeded(c.bus->Live_0.seeds, ptr, hint, n);
        let d = c.dispatch(program, SyscallCode::SYSHINTREAD, ptr, len).0;
        if fresh {
            assert(seeds.contains_key(slot));
            assert(seeds[slot] == machine::hint_word(hint, i / 4));
            assert forall|addr: u32| outside(addr, ptr, n) implies #[trigger] d.bus.entry(addr)
                == c.bus.entry(addr) by {
                assert(seeds.contains_key(memory::slot(addr)) == c.bus->Live_0.seeds.contains_key(
                    memory::slot(addr),
                ));
            }
        }
    }
}

/// Where the hint fits and was not placed before, reading it succeeds.
pub proof fn a_fitting_hint_is_read(c: Cpu, program: Program, ptr: u32)
    requires
        c.bus is Live,
        c.bus->Live_0.input.len() > 0,
        c.bus->Live_0.input[0].len() <= u32::MAX,
        ptr % 4 == 0,
        machine::words_fit(ptr, ((c.bus->Live_0.input[0].len() + 3) / 4) as nat),
        forall|k: int|
            ptr as int / 4 <= k < ptr as int / 4 + (c.bus->Live_0.input[0].len() + 3) / 4
                ==> !(#[trigger] c.bus->Live_0.seeds.contains_key(k)),
    ensures
        c.dispatch(
            program,
            SyscallCode::SYSHINTREAD,
            ptr,
            c.bus->Live_0.input[0].len() as u32,
        ).1 is Ok,
{
    reveal(Cpu::dispatch);
    let hint = c.bus->Live_0.input[0];
    lemma_seeded(c.bus->Live_0.seeds, ptr, hint, machine::hint_words(hint));
}

/// The break is the larger of the one that the program starts with and the requested one, so a
/// larger request never gets less; the call changes no word and no register beside the error flag.
pub proof fn the_break_only_grows(c: Cpu, program: Program, requested: u32, arg2: u32)
    requires
        c.regs.len() == 36,
    ensures
        ({
            let (d, r) = c.dispatch(program, SyscallCode::SYS_BRK, requested, arg2);
            let brk = Register::BRK.number() as u32;
            let initial = if program.image@.contains_key(brk) {
                program.image@[brk]
            } else {
                c.reg(Register::BRK.number())
            };
            &&& r matches Ok(effect) ==> {
                &&& effect.result matches Some(v) && v >= initial && v >= requested && (v == initial
                    || v == requested)
                &&& d.bus == c.bus
                &&& d.regs == c.regs.update(Register::A3.number() as int, 0)
            }
            &&& requested <= initial <= 0x7f00_0000 ==> r is Ok
        }),
{
    reveal(Cpu::dispatch);
}

/// A program that halts with zero has exited, and goes on at address zero; any other exit code is
/// the error.
pub proof fn only_a_zero_exit_code_is_a_success(c: Cpu, program: Program, exit_code: u32, arg2: u32)
    ensures
        ({
            let (d, r) = c.dispatch(program, SyscallCode::HALT, exit_code, arg2);
            if exit_code == 0 {
                d.exited && d.bus == c.bus && d.regs == c.regs && (r matches Ok(effect)
                    && effect.next_pc == 0)
            } else {
                d == c && r == Err::<machine::Effect, ExecutionError>(
                    ExecutionError::HaltWithNonZeroExitCode(exit_code),
                )
            }
        }),
{
    reveal(Cpu::dispatch);
}

} // verus!
