//! Laws of the instructions' arithmetic: how the opcodes relate to one another and to the
//! integers.
use vstd::arithmetic::power2;
use vstd::prelude::*;

use crate::errors::ExecutionError;
use crate::opcode::Opcode;
use crate::vm;

verus! {

/// A product of unsigned words is its low word and `2^32` times its high word; of signed words
/// too, the high word being signed. The one-word product is the low word of either.
pub proof fn products_recombine(b: u32, c: u32)
    ensures
        ({
            let (lo, hi) = vm::alu_result(Opcode::MULTU, b, c);
            lo + hi * 0x1_0000_0000 == b * c && vm::alu_result(Opcode::MUL, b, c).0 == lo
        }),
        ({
            let (lo, hi) = vm::alu_result(Opcode::MULT, b, c);
            lo + vm::signed(hi) * 0x1_0000_0000 == vm::signed(b) * vm::signed(c)
        }),
{
    assert(0 <= b * c <= 0xffff_ffff * 0xffff_ffff) by (nonlinear_arith);
    let p = vm::signed(b) * vm::signed(c);
    assert(-0x8000_0000 * 0x8000_0000 <= p <= 0x8000_0000 * 0x8000_0000) by (nonlinear_arith)
        requires
            -0x8000_0000 <= vm::signed(b) < 0x8000_0000,
            -0x8000_0000 <= vm::signed(c) < 0x8000_0000,
            p == vm::signed(b) * vm::signed(c),
    ;
}

/// Division of unsigned words recombines, and the remainders are those of the divisions.
pub proof fn quotients_recombine(b: u32, c: u32)
    requires
        c != 0,
    ensures
        ({
            let (q, r) = vm::alu_result(Opcode::DIVU, b, c);
            b == q * c + r && r < c && vm::alu_result(Opcode::MODU, b, c).0 == r
        }),
        vm::alu_result(Opcode::MOD, b, c).0 == vm::alu_result(Opcode::DIV, b, c).1,
        ({
            let r = vm::signed(vm::alu_result(Opcode::DIV, b, c).1);
            &&& vm::abs(r) < vm::abs(vm::signed(c))
            &&& vm::signed(b) >= 0 ==> r >= 0
            &&& vm::signed(b) <= 0 ==> r <= 0
        }),
{
    assert(b == (b / c) * c + b % c && b % c < c) by (nonlinear_arith)
        requires
            c > 0,
    ;
    let x = vm::abs(vm::signed(b));
    let y = vm::abs(vm::signed(c));
    assert(0 <= x % y < y) by (nonlinear_arith)
        requires
            x >= 0,
            y > 0,
    ;
    assert(x % y <= x) by (nonlinear_arith)
        requires
            x >= 0,
            y > 0,
    ;
}

/// Addition and subtraction undo each other and count modulo `2^32`.
pub proof fn subtraction_undoes_addition(a: u32, b: u32, c: u32)
    ensures
        vm::alu_result(Opcode::ADD, b, c).0 == a <==> vm::alu_result(Opcode::SUB, a, c).0 == b,
        b + c <= 0xffff_ffff ==> vm::alu_result(Opcode::ADD, b, c).0 == b + c,
        c <= a ==> vm::alu_result(Opcode::SUB, a, c).0 == a - c,
{
    let sum = vm::word(b + c);
    let difference = vm::word(a - c);
    assert(sum == b + c || sum == b + c - 0x1_0000_0000);
    assert(difference == a - c || difference == a - c + 0x1_0000_0000);
}

/// Shifts to the left multiply by powers of two and those to the right divide by them; a rotation
/// moves the bits that a shift to the right drops to the top. The low five bits of the distance
/// count.
pub proof fn shifts_scale_by_powers_of_two(b: u32, c: u32)
    ensures
        ({
            let p = power2::pow2((c % 32) as nat) as int;
            &&& p >= 1
            &&& vm::alu_result(Opcode::SLL, b, c).0 == vm::word(b * p)
            &&& vm::alu_result(Opcode::SRL, b, c).0 == b as int / p
            &&& vm::alu_result(Opcode::ROR, b, c).0 * p == b + (b as int % p) * 0xffff_ffff
        }),
{
    let s: u32 = c & 0x1f;
    assert(s == c % 32) by (bit_vector)
        requires
            s == c & 0x1f,
    ;
    let p = power2::pow2(s as nat) as int;
    power2::lemma_pow2_pos(s as nat);
    vstd::bits::lemma_u32_shr_is_div(b, s);
    lemma_shl(b, s);
    if s > 0 {
        let t: u32 = (32 - s) as u32;
        lemma_shl(b, t);
        power2::lemma_pow2_adds(s as nat, t as nat);
        power2::lemma2_to64();
        let q = power2::pow2(t as nat) as int;
        power2::lemma_pow2_pos(t as nat);
        assert(p * q == 0x1_0000_0000);
        let hi: u32 = b << t;
        let lo: u32 = b >> s;
        assert(hi | lo == hi + lo && lo | hi == hi + lo) by (bit_vector)
            requires
                0 < s < 32,
                t == 32 - s,
                hi == b << t,
                lo == b >> s,
        ;
        // b == lo * p + low, so b * q is low * q above the multiples of 2^32.
        let low = b as int % p;
        assert(b == lo * p + low && 0 <= low < p) by (nonlinear_arith)
            requires
                p >= 1,
                lo == b as int / p,
                low == b as int % p,
        ;
        assert(b * q == lo * 0x1_0000_0000 + low * q) by (nonlinear_arith)
            requires
                b == lo * p + low,
                p * q == 0x1_0000_0000,
        ;
        assert(0 <= low * q < 0x1_0000_0000) by (nonlinear_arith)
            requires
                0 <= low < p,
                q >= 1,
                p * q == 0x1_0000_0000,
        ;
        assert(hi == low * q);
        assert((hi + lo) * p == low * 0x1_0000_0000 + lo * p) by (nonlinear_arith)
            requires
                hi == low * q,
                p * q == 0x1_0000_0000,
        ;
    } else {
        power2::lemma2_to64();
    }
}

proof fn lemma_shl(b: u32, s: u32)
    requires
        s < 32,
    ensures
        (b << s) == vm::word(b * power2::pow2(s as nat)),
    decreases s,
{
    if s == 0 {
        power2::lemma2_to64();
        assert(b << 0u32 == b) by (bit_vector);
        assert(b * power2::pow2(0) == b) by (nonlinear_arith)
            requires
                power2::pow2(0) == 1,
        ;
    } else {
        let t: u32 = (s - 1) as u32;
        lemma_shl(b, t);
        power2::lemma_pow2_unfold(s as nat);
        let x: u32 = b << t;
        let y: u32 = b << s;
        assert(y == (x * 2) % 0x1_0000_0000) by (bit_vector)
            requires
                0 < s < 32,
                t == s - 1,
                x == b << t,
                y == b << s,
        ;
        let p = b * power2::pow2(t as nat);
        assert(b * power2::pow2(s as nat) == 2 * p) by (nonlinear_arith)
            requires
                power2::pow2(s as nat) == 2 * power2::pow2(t as nat),
                p == b * power2::pow2(t as nat),
        ;
        assert((p % 0x1_0000_0000 * 2) % 0x1_0000_0000 == (2 * p) % 0x1_0000_0000);
    }
}

/// The two orders are strict and total, and agree on words of the same sign.
pub proof fn comparisons_are_orders(b: u32, c: u32)
    ensures
        vm::alu_result(Opcode::SLTU, b, c).0 + vm::alu_result(Opcode::SLTU, c, b).0 == if b == c {
            0int
        } else {
            1
        },
        vm::alu_result(Opcode::SLT, b, c).0 + vm::alu_result(Opcode::SLT, c, b).0 == if b == c {
            0int
        } else {
            1
        },
        vm::alu_result(Opcode::SLTU, 0, b).0 == if b == 0 {
            0int
        } else {
            1
        },
        (b < 0x8000_0000) == (c < 0x8000_0000) ==> vm::alu_result(Opcode::SLT, b, c)
            == vm::alu_result(Opcode::SLTU, b, c),
        b >= 0x8000_0000 && c < 0x8000_0000 ==> vm::alu_result(Opcode::SLT, b, c).0 == 1,
{
}

/// The bitwise opcodes: conjunction and disjunction add up to the sum, exclusive disjunction is
/// their difference, and the negated disjunction is the complement of the disjunction.
pub proof fn bitwise_results_add_up(b: u32, c: u32)
    ensures
        vm::alu_result(Opcode::AND, b, c).0 + vm::alu_result(Opcode::OR, b, c).0 == b + c,
        vm::alu_result(Opcode::XOR, b, c).0 == vm::alu_result(Opcode::OR, b, c).0
            - vm::alu_result(Opcode::AND, b, c).0,
        vm::alu_result(Opcode::NOR, b, c).0 == 0xffff_ffff - vm::alu_result(Opcode::OR, b, c).0,
        vm::alu_result(Opcode::AND, b, b).0 == b,
        vm::alu_result(Opcode::AND, b, c).0 <= b,
        vm::alu_result(Opcode::AND, b, c).0 <= c,
{
    assert((b & c) + (b | c) == b + c && (b ^ c) == (b | c) - (b & c) && !(b | c) == 0xffff_ffff - (b
        | c) && b & b == b && b & c <= b && b & c <= c) by (bit_vector);
}

/// Of the branches on two registers exactly one is taken, and so of each pair on the sign.
pub proof fn opposite_branches_exclude_each_other(a: u32, b: u32)
    ensures
        vm::takes_branch(Opcode::BEQ, a, b) != vm::takes_branch(Opcode::BNE, a, b),
        vm::takes_branch(Opcode::BEQ, a, a),
        vm::takes_branch(Opcode::BGEZ, a, b) != vm::takes_branch(Opcode::BLTZ, a, b),
        vm::takes_branch(Opcode::BGTZ, a, b) != vm::takes_branch(Opcode::BLEZ, a, b),
        vm::takes_branch(Opcode::BLTZ, a, b) <==> a >= 0x8000_0000,
        vm::takes_branch(Opcode::BGTZ, a, b) <==> 0 < a < 0x8000_0000,
        vm::takes_branch(Opcode::BEQ, a, b) ==> a == b,
{
}

/// A jump leaves the address behind its delay slot, two instructions behind the jump in line.
pub proof fn a_jump_links_behind_its_delay_slot(pc: u32, operand: u32)
    requires
        pc <= 0xffff_fff7,
    ensures
        vm::jump_result(Opcode::Jump, (pc + 4) as u32, operand) == ((pc + 8) as u32, operand),
        vm::jump_result(Opcode::Jumpi, (pc + 4) as u32, operand) == ((pc + 8) as u32, operand),
        vm::jump_result(Opcode::JumpDirect, (pc + 4) as u32, operand) == (
            (pc + 8) as u32,
            vm::word(pc + 4 + operand),
        ),
{
}

/// The two conditional moves are opposites: of the two, exactly one moves.
pub proof fn conditional_moves_are_opposites(a: u32, b: u32, c: u32)
    ensures
        vm::moved(Opcode::MEQ, a, b, 0) == b,
        vm::moved(Opcode::MNE, a, b, 0) == a,
        c != 0 ==> vm::moved(Opcode::MEQ, a, b, c) == a && vm::moved(Opcode::MNE, a, b, c) == b,
{
}

/// Swapping the bytes of the halves twice changes nothing, and each byte goes to its neighbour.
pub proof fn swapping_twice_changes_nothing(b: u32)
    ensures
        vm::swap_halves_bytes(vm::swap_halves_bytes(b)) == b,
        vm::byte_of(vm::swap_halves_bytes(b), 0) == vm::byte_of(b, 1),
        vm::byte_of(vm::swap_halves_bytes(b), 2) == vm::byte_of(b, 3),
{
    let r: u32 = vm::swap_halves_bytes(b);
    assert(((r & 0xff00_ff00) >> 8) | ((r & 0x00ff_00ff) << 8) == b && (r >> 0u32) & 0xff == (b
        >> 8u32) & 0xff && (r >> 16u32) & 0xff == (b >> 24u32) & 0xff) by (bit_vector)
        requires
            r == ((b & 0xff00_ff00) >> 8) | ((b & 0x00ff_00ff) << 8),
    ;
}

/// A bit field that was inserted is the one that is extracted again, and the bits outside the
/// field keep what they held. Both encode a field by its lowest bit; an insertion adds its highest
/// bit and an extraction its width less one.
pub proof fn an_inserted_field_is_extracted_again(a: u32, b: u32, low: u32, width: u32)
    requires
        1 <= width,
        low + width <= 32,
    ensures
        ({
            let ins = (32 * (low + width - 1) + low) as u32;
            let ext = (32 * (width - 1) + low) as u32;
            let r = vm::inserted(a, b, ins);
            &&& !vm::insert_traps(ins)
            &&& !vm::extract_traps(ext)
            &&& vm::extract(r, ext) == b & vm::low_mask(width)
            &&& r & vm::low_mask(low) == a & vm::low_mask(low)
            &&& low + width < 32 ==> r >> ((low + width) as u32) == a >> ((low + width) as u32)
        }),
{
    let ins = (32 * (low + width - 1) + low) as u32;
    let ext = (32 * (width - 1) + low) as u32;
    let msb: u32 = (low + width - 1) as u32;
    let msbd: u32 = (width - 1) as u32;
    assert(ins >> 5 == msb && ins & 0x1f == low && ext >> 5 == msbd && ext & 0x1f == low) by (bit_vector)
        requires
            1 <= width,
            low + width <= 32,
            msb == low + width - 1,
            msbd == width - 1,
            ins == 32 * (low + width - 1) + low,
            ext == 32 * (width - 1) + low,
    ;
    let mask: u32 = vm::low_mask(width);
    let low_mask: u32 = vm::low_mask(low);
    let r: u32 = vm::inserted(a, b, ins);
    assert((msb - low + 1) as u32 == width);
    let top: u32 = (low + width) as u32;
    assert((r >> low) & mask == b & mask && r & low_mask == a & low_mask && (top < 32 ==> r >> top
        == a >> top)) by (bit_vector)
        requires
            1 <= width <= 32,
            low < 32,
            low + width <= 32,
            top == low + width,
            mask == (if width >= 32 {
                0xffff_ffffu32
            } else {
                ((1u32 << width) - 1) as u32
            }),
            low_mask == (if low >= 32 {
                0xffff_ffffu32
            } else {
                ((1u32 << low) - 1) as u32
            }),
            r == (a & !(mask << low)) | ((b << low) & (mask << low)),
    ;
}

/// Sign extension keeps the low bits and the value they have in two's complement.
pub proof fn sign_extension_keeps_the_value(b: u32, c: u32)
    ensures
        ({
            let r = vm::signed(vm::sext_result(b, c));
            if c > 0 {
                -0x8000 <= r < 0x8000 && r % 0x1_0000 == b % 0x1_0000
            } else {
                -0x80 <= r < 0x80 && r % 0x100 == b % 0x100
            }
        }),
{
    lemma_extended(b);
}

proof fn lemma_extended(b: u32)
    ensures
        ({
            let r = vm::signed(vm::extended(b, 16));
            -0x8000 <= r < 0x8000 && r % 0x1_0000 == b % 0x1_0000
        }),
        ({
            let r = vm::signed(vm::extended(b, 8));
            -0x80 <= r < 0x80 && r % 0x100 == b % 0x100
        }),
{
    let half: u32 = vm::low_mask(16);
    let byte: u32 = vm::low_mask(8);
    assert(1u32 << 16u32 == 0x1_0000 && 1u32 << 8u32 == 0x100) by (bit_vector);
    let low: u32 = b & 0xffff;
    let least: u32 = b & 0xff;
    assert(low == b % 0x1_0000 && least == b % 0x100 && (low >> 15u32 == 0 <==> low < 0x8000) && (
    least >> 7u32 == 0 <==> least < 0x80) && low | !0xffffu32 == low + 0xffff_0000 && least
        | !0xffu32 == least + 0xffff_ff00) by (bit_vector)
        requires
            low == b & 0xffff,
            least == b & 0xff,
    ;
    assert(half == 0xffff && byte == 0xff);
}

/// The value of a byte or half that is loaded with its sign is the one that is loaded without,
/// taken as two's complement; a whole word is loaded as it is.
pub proof fn signed_loads_have_the_signed_value(addr: u32, mem: u32, rt: u32)
    ensures
        ({
            let b = vm::loaded(Opcode::LBU, addr, mem, rt);
            let h = vm::loaded(Opcode::LHU, addr, mem, rt);
            &&& b < 0x100
            &&& h < 0x1_0000
            &&& vm::signed(vm::loaded(Opcode::LB, addr, mem, rt)) == if b < 0x80 {
                b as int
            } else {
                b - 0x100
            }
            &&& vm::signed(vm::loaded(Opcode::LH, addr, mem, rt)) == if h < 0x8000 {
                h as int
            } else {
                h - 0x1_0000
            }
            &&& vm::loaded(Opcode::LW, addr, mem, rt) == mem
            &&& vm::loaded(Opcode::LL, addr, mem, rt) == mem
        }),
{
    let b = vm::loaded(Opcode::LBU, addr, mem, rt);
    let h = vm::loaded(Opcode::LHU, addr, mem, rt);
    let x: u32 = mem >> ((addr % 4 * 8) as u32);
    let y: u32 = mem >> ((addr % 4 / 2 * 16) as u32);
    assert(x & 0xff < 0x100 && y & 0xffff < 0x1_0000) by (bit_vector);
    lemma_extended(b);
    lemma_extended(h);
}

/// A word is its four bytes, the first the least significant, and its two halves.
pub proof fn a_word_is_its_bytes(mem: u32)
    ensures
        mem == vm::byte_of(mem, 0) + 0x100 * vm::byte_of(mem, 1) + 0x1_0000 * vm::byte_of(mem, 2)
            + 0x100_0000 * vm::byte_of(mem, 3),
        vm::half_of(mem, 0) == vm::byte_of(mem, 0) + 0x100 * vm::byte_of(mem, 1),
        vm::half_of(mem, 1) == vm::byte_of(mem, 2) + 0x100 * vm::byte_of(mem, 3),
        vm::byte_of(mem, 0) < 0x100,
        vm::byte_of(mem, 1) < 0x100,
        vm::byte_of(mem, 2) < 0x100,
        vm::byte_of(mem, 3) < 0x100,
{
    assert(mem == ((mem >> 0u32) & 0xff) + 0x100 * ((mem >> 8u32) & 0xff) + 0x1_0000 * ((mem
        >> 16u32) & 0xff) + 0x100_0000 * ((mem >> 24u32) & 0xff) && ((mem >> 0u32) & 0xffff) == ((mem
        >> 0u32) & 0xff) + 0x100 * ((mem >> 8u32) & 0xff) && ((mem >> 16u32) & 0xffff) == ((mem
        >> 16u32) & 0xff) + 0x100 * ((mem >> 24u32) & 0xff) && ((mem >> 0u32) & 0xff) < 0x100 && ((
    mem >> 8u32) & 0xff) < 0x100 && ((mem >> 16u32) & 0xff) < 0x100 && ((mem >> 24u32) & 0xff)
        < 0x100) by (bit_vector);
}

/// What a store leaves, byte by byte: the bytes that it covers are those of the register, and the
/// others keep what they held. A left store covers the bytes up to the address with the top bytes
/// of the register, a right store those from the address on with its low bytes.
pub proof fn a_store_changes_its_own_bytes(addr: u32, mem: u32, rt: u32, j: u32)
    requires
        j < 4,
    ensures
        ({
            let i = addr % 4;
            let b = vm::byte_of(mem, j);
            &&& vm::byte_of(vm::stored(Opcode::SB, addr, mem, rt), j) == if j == i {
                vm::byte_of(rt, 0)
            } else {
                b
            }
            &&& vm::byte_of(vm::stored(Opcode::SH, addr, mem, rt), j) == if j / 2 == i / 2 {
                vm::byte_of(rt, j % 2)
            } else {
                b
            }
            &&& vm::byte_of(vm::stored(Opcode::SW, addr, mem, rt), j) == vm::byte_of(rt, j)
            &&& vm::byte_of(vm::stored(Opcode::SC, addr, mem, rt), j) == vm::byte_of(rt, j)
            &&& vm::byte_of(vm::stored(Opcode::SWL, addr, mem, rt), j) == if j <= i {
                vm::byte_of(rt, (3 - i + j) as u32)
            } else {
                b
            }
            &&& vm::byte_of(vm::stored(Opcode::SWR, addr, mem, rt), j) == if j >= i {
                vm::byte_of(rt, (j - i) as u32)
            } else {
                b
            }
        }),
{
    let i: u32 = addr % 4;
    let s: u32 = (i * 8) as u32;
    let h: u32 = (i / 2 * 16) as u32;
    let sb: u32 = vm::stored(Opcode::SB, addr, mem, rt);
    let sh: u32 = vm::stored(Opcode::SH, addr, mem, rt);
    let swl: u32 = vm::stored(Opcode::SWL, addr, mem, rt);
    let swr: u32 = vm::stored(Opcode::SWR, addr, mem, rt);
    let at: u32 = (j * 8) as u32;
    let odd: u32 = (j % 2 * 8) as u32;
    let left: u32 = if j <= i {
        ((3 - i + j) * 8) as u32
    } else {
        0
    };
    let right: u32 = if j >= i {
        ((j - i) * 8) as u32
    } else {
        0
    };
    assert((sb >> at) & 0xff == (if j == i {
        (rt >> 0u32) & 0xff
    } else {
        (mem >> at) & 0xff
    }) && (sh >> at) & 0xff == (if j / 2 == i / 2 {
        (rt >> odd) & 0xff
    } else {
        (mem >> at) & 0xff
    }) && (swl >> at) & 0xff == (if j <= i {
        (rt >> left) & 0xff
    } else {
        (mem >> at) & 0xff
    }) && (swr >> at) & 0xff == (if j >= i {
        (rt >> right) & 0xff
    } else {
        (mem >> at) & 0xff
    })) by (bit_vector)
        requires
            i < 4,
            j < 4,
            at == j * 8,
            odd == j % 2 * 8,
            j <= i ==> left == (3 - i + j) * 8,
            j >= i ==> right == (j - i) * 8,
            s == i * 8,
            h == i / 2 * 16,
            sb == (mem & !(0xffu32 << s)) | ((rt & 0xff) << s),
            sh == (mem & !(0xffffu32 << h)) | ((rt & 0xffff) << h),
            swl == (if i == 0 {
                (mem & 0xFFFF_FF00) | (rt >> 24u32)
            } else if i == 1 {
                (mem & 0xFFFF_0000) | (rt >> 16u32)
            } else if i == 2 {
                (mem & 0xFF00_0000) | (rt >> 8u32)
            } else {
                rt
            }),
            swr == (if i == 0 {
                rt
            } else if i == 1 {
                (mem & 0x0000_00FF) | (rt << 8u32)
            } else if i == 2 {
                (mem & 0x0000_FFFF) | (rt << 16u32)
            } else {
                (mem & 0x00FF_FFFF) | (rt << 24u32)
            }),
    ;
}

/// What a load of part of a word leaves in its register, byte by byte: a left load fills the top
/// bytes with those up to the address, a right load fills the low bytes with those from the address
/// on, and the other bytes of the register stay. A byte and a half are those at the address.
pub proof fn a_load_takes_its_own_bytes(addr: u32, mem: u32, rt: u32, j: u32)
    requires
        j < 4,
    ensures
        ({
            let i = addr % 4;
            let b = vm::byte_of(rt, j);
            &&& vm::byte_of(vm::loaded(Opcode::LWL, addr, mem, rt), j) == if j >= 3 - i {
                vm::byte_of(mem, (i + j - 3) as u32)
            } else {
                b
            }
            &&& vm::byte_of(vm::loaded(Opcode::LWR, addr, mem, rt), j) == if j + i <= 3 {
                vm::byte_of(mem, (i + j) as u32)
            } else {
                b
            }
            &&& vm::loaded(Opcode::LBU, addr, mem, rt) == vm::byte_of(mem, i)
            &&& addr % 2 == 0 ==> vm::loaded(Opcode::LHU, addr, mem, rt) == vm::byte_of(mem, i)
                + 0x100 * vm::byte_of(mem, (i + 1) as u32)
        }),
{
    let i: u32 = addr % 4;
    let lwl: u32 = vm::loaded(Opcode::LWL, addr, mem, rt);
    let lwr: u32 = vm::loaded(Opcode::LWR, addr, mem, rt);
    let at: u32 = (j * 8) as u32;
    let left: u32 = if j >= 3 - i {
        ((i + j - 3) * 8) as u32
    } else {
        0
    };
    let right: u32 = if j + i <= 3 {
        ((i + j) * 8) as u32
    } else {
        0
    };
    a_word_is_its_bytes(mem);
    assert((lwl >> at) & 0xff == (if j + i >= 3 {
        (mem >> left) & 0xff
    } else {
        (rt >> at) & 0xff
    }) && (lwr >> at) & 0xff == (if j + i <= 3 {
        (mem >> right) & 0xff
    } else {
        (rt >> at) & 0xff
    })) by (bit_vector)
        requires
            i < 4,
            j < 4,
            at == j * 8,
            j + i >= 3 ==> left == (i + j - 3) * 8,
            j + i <= 3 ==> right == (i + j) * 8,
            lwl == (if i == 0 {
                (rt & 0x00FF_FFFF) | (mem << 24u32)
            } else if i == 1 {
                (rt & 0x0000_FFFF) | (mem << 16u32)
            } else if i == 2 {
                (rt & 0x0000_00FF) | (mem << 8u32)
            } else {
                mem
            }),
            lwr == (if i == 0 {
                mem
            } else if i == 1 {
                (rt & 0xFF00_0000) | (mem >> 8u32)
            } else if i == 2 {
                (rt & 0xFFFF_0000) | (mem >> 16u32)
            } else {
                (rt & 0xFFFF_FF00) | (mem >> 24u32)
            }),
    ;
}

/// A multiply-accumulate adds the product to the accumulator, or takes it off, modulo `2^64`; the
/// signed pair undo each other as the unsigned pair do.
pub proof fn accumulating_adds_the_product(b: u32, c: u32, lo: u32, hi: u32)
    ensures
        ({
            let acc = lo + hi * 0x1_0000_0000;
            let m = 0x1_0000_0000_0000_0000;
            let value = |r: (u32, u32)| r.0 + r.1 * 0x1_0000_0000;
            &&& value(vm::madd_result(Opcode::MADDU, b, c, lo, hi)) == (acc + b * c) % m
            &&& value(vm::madd_result(Opcode::MSUBU, b, c, lo, hi)) == (acc - b * c) % m
            &&& value(vm::madd_result(Opcode::MADD, b, c, lo, hi)) == (acc + vm::signed(b)
                * vm::signed(c)) % m
            &&& value(vm::madd_result(Opcode::MSUB, b, c, lo, hi)) == (acc - vm::signed(b)
                * vm::signed(c)) % m
        }),
{
    let acc = lo + hi * 0x1_0000_0000;
    lemma_two_words(acc + b * c);
    lemma_two_words(acc - b * c);
    lemma_two_words(acc + vm::signed(b) * vm::signed(c));
    lemma_two_words(acc - vm::signed(b) * vm::signed(c));
}

proof fn lemma_two_words(x: int)
    ensures
        vm::word(x) + vm::high_word(x) * 0x1_0000_0000 == x % 0x1_0000_0000_0000_0000,
{
    let q = x / 0x1_0000_0000;
    assert(q == (q / 0x1_0000_0000) * 0x1_0000_0000 + q % 0x1_0000_0000);
    assert(x == q * 0x1_0000_0000 + x % 0x1_0000_0000);
}

/// The leading zeros of a word say between which powers of two it lies, and the leading ones are
/// the leading zeros of its complement.
pub proof fn leading_zeros_bound_the_word(b: u32)
    ensures
        ({
            let z = vm::alu_result(Opcode::CLZ, b, 0).0;
            &&& z <= 32
            &&& z == 32 <==> b == 0
            &&& b != 0 ==> power2::pow2((31 - z) as nat) <= b < power2::pow2((32 - z) as nat)
        }),
        vm::alu_result(Opcode::CLO, b, 0) == vm::alu_result(Opcode::CLZ, (0xffff_ffff - b) as u32, 0),
{
    broadcast use vstd::std_specs::bits::group_bits_axioms;

    assert(!b == 0xffff_ffff - b) by (bit_vector);
    vstd::std_specs::bits::axiom_u32_leading_zeros(b);
    let z = vm::alu_result(Opcode::CLZ, b, 0).0;
    if b != 0 {
        let top: u32 = (31 - z) as u32;
        power2::lemma_pow2_pos(top as nat);
        vstd::bits::lemma_u32_shr_is_div(b, top);
        power2::lemma_pow2_unfold((top + 1) as nat);
        let p = power2::pow2(top as nat) as int;
        let x: u32 = b >> top;
        assert(x & 1 == 1 ==> x >= 1) by (bit_vector);
        assert(b >= p) by (nonlinear_arith)
            requires
                x == b as int / p,
                x >= 1,
                p >= 1,
        ;
        if top < 31 {
            let t: u32 = (top + 1) as u32;
            vstd::bits::lemma_u32_shr_is_div(b, t);
            let q = power2::pow2(t as nat) as int;
            power2::lemma_pow2_pos(t as nat);
            assert(b < q) by (nonlinear_arith)
                requires
                    b as int / q == 0,
                    q >= 1,
            ;
        } else {
            power2::lemma2_to64();
        }
    }
}

/// A size is rounded up to the next multiple of a page, and refused if that is out of range.
pub proof fn sizes_are_rounded_up_to_pages(size: u32)
    ensures
        match vm::aligned_size(size) {
            Ok(up) => up % 0x1000 == 0 && size <= up < size + 0x1000,
            Err(_) => size > 0xffff_f000,
        },
        vm::aligned_size(size) is Ok <==> size <= 0xffff_f000,
{
}

/// The break is never below the current one nor beyond the limit of the heap, a request in between
/// is granted as it is, and asking again for what was granted changes nothing.
pub proof fn the_break_stays_within_the_heap(initial: u32, current: u32, requested: u32)
    ensures
        match vm::brk_result(initial, current, requested) {
            Ok(granted) => {
                &&& granted == current || granted == requested
                &&& granted >= current && granted >= requested
                &&& granted <= initial + crate::consts::MAX_HEAP_SIZE
                &&& granted <= crate::consts::MAX_MEMORY
                &&& vm::brk_result(initial, granted, granted) == Ok::<u32, ExecutionError>(granted)
            },
            Err(_) => {
                ||| initial + crate::consts::MAX_HEAP_SIZE > u32::MAX
                ||| current > initial + crate::consts::MAX_HEAP_SIZE
                ||| requested > initial + crate::consts::MAX_HEAP_SIZE
                ||| current > crate::consts::MAX_MEMORY
                ||| requested > crate::consts::MAX_MEMORY
            },
        },
{
}

/// The clock never goes back, stays where there is room in its window, and otherwise goes to the
/// start of the next one.
pub proof fn the_clock_goes_on_where_there_is_room(clk: u64, max_syscall_cycles: u32)
    requires
        max_syscall_cycles + 4 < crate::consts::CORE_SHARD_CLK_LIMIT,
    ensures
        ({
            let limit = crate::consts::CORE_SHARD_CLK_LIMIT as int;
            let next = vm::bumped_clk(clk, max_syscall_cycles);
            &&& clk <= next
            &&& next == clk || next == (clk as int / limit + 1) * limit
            &&& next == clk <==> (clk + max_syscall_cycles + 4) / limit == clk as int / limit
        }),
{
    let limit = crate::consts::CORE_SHARD_CLK_LIMIT as int;
    let q = clk as int / limit;
    let r = clk as int % limit;
    assert(clk == q * limit + r);
    let s = r + max_syscall_cycles + 4;
    assert((q * limit + s) / limit == q + s / limit);
}

} // verus!
