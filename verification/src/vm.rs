//! The pure part of every instruction: functions from operand values to results.
use vstd::prelude::*;

use crate::consts::{CORE_SHARD_CLK_LIMIT, MAX_HEAP_SIZE, MAX_MEMORY};
use crate::errors::ExecutionError;
use crate::opcode::{OpClass, Opcode};

verus! {

broadcast use vstd::std_specs::bits::group_bits_axioms;

/// Two to the power of 32.
pub const WORD_RANGE: u64 = 0x1_0000_0000;

/// The value of a word taken as a two's complement integer.
pub open spec fn signed(x: u32) -> int {
    if x < 0x8000_0000 {
        x as int
    } else {
        x - 0x1_0000_0000
    }
}

/// The word congruent to an integer modulo `2^32`.
pub open spec fn word(i: int) -> u32 {
    (i % 0x1_0000_0000) as u32
}

/// The word above the lowest one of an integer.
pub open spec fn high_word(i: int) -> u32 {
    ((i / 0x1_0000_0000) % 0x1_0000_0000) as u32
}

/// Quotient rounded towards zero.
pub open spec fn trunc_div(a: int, b: int) -> int {
    if (a >= 0) == (b > 0) {
        abs(a) / abs(b)
    } else {
        -(abs(a) / abs(b))
    }
}

/// Remainder with the sign of the dividend.
pub open spec fn trunc_rem(a: int, b: int) -> int {
    if a >= 0 {
        abs(a) % abs(b)
    } else {
        -(abs(a) % abs(b))
    }
}

/// Absolute value.
pub open spec fn abs(a: int) -> int {
    if a >= 0 {
        a
    } else {
        -a
    }
}

/// `n` low bits set.
pub open spec fn low_mask(n: u32) -> u32 {
    if n >= 32 {
        0xffff_ffffu32
    } else {
        ((1u32 << n) - 1) as u32
    }
}

/// The two's complement value of a word.
pub fn to_signed(x: u32) -> (r: i64)
    ensures
        r == signed(x),
{
    if x < 0x8000_0000 {
        x as i64
    } else {
        x as i64 - 0x1_0000_0000
    }
}

/// The word congruent to `v` modulo `2^32`, and the word above it.
pub fn split_words(v: i128) -> (r: (u32, u32))
    requires
        -0x1_0000_0000_0000_0000 <= v < 0x1_0000_0000_0000_0000_0000,
    ensures
        r.0 == word(v as int),
        r.1 == high_word(v as int),
{
    let shifted: i128 = v + 0x1_0000_0000_0000_0000;
    let m: u128 = (shifted as u128) % 0x1_0000_0000_0000_0000;
    let lo: u32 = (m % 0x1_0000_0000) as u32;
    let hi: u32 = (m / 0x1_0000_0000) as u32;
    (lo, hi)
}

/// What an arithmetic or logic instruction writes: the result, and the high word for the
/// opcodes that have one (zero for the others).
pub open spec fn alu_result(opcode: Opcode, b: u32, c: u32) -> (u32, u32) {
    let s: u32 = c & 0x1f;
    match opcode {
        Opcode::ADD => (word(b + c), 0),
        Opcode::SUB => (word(b - c), 0),
        Opcode::SLL => (b << s, 0),
        Opcode::SRL => (b >> s, 0),
        Opcode::SRA => (if signed(b) >= 0 {
            b >> s
        } else {
            !((!b) >> s)
        }, 0),
        Opcode::ROR => (if s == 0 {
            b
        } else {
            (b >> s) | (b << ((32 - s) as u32))
        }, 0),
        Opcode::MUL => (word(b * c), 0),
        Opcode::SLTU => (if b < c {
            1
        } else {
            0
        }, 0),
        Opcode::SLT => (if signed(b) < signed(c) {
            1
        } else {
            0
        }, 0),
        Opcode::MULT => (word(signed(b) * signed(c)), high_word(signed(b) * signed(c))),
        Opcode::MULTU => (word(b * c), high_word(b * c)),
        Opcode::DIV => (
            word(trunc_div(signed(b), signed(c))),
            word(trunc_rem(signed(b), signed(c))),
        ),
        Opcode::DIVU => ((b / c), (b % c)),
        Opcode::MOD => (word(trunc_rem(signed(b), signed(c))), 0),
        Opcode::MODU => (b % c, 0),
        Opcode::AND => (b & c, 0),
        Opcode::OR => (b | c, 0),
        Opcode::XOR => (b ^ c, 0),
        Opcode::NOR => (!(b | c), 0),
        Opcode::CLZ => (vstd::std_specs::bits::u32_leading_zeros(b), 0),
        Opcode::CLO => (vstd::std_specs::bits::u32_leading_ones(b), 0),
        _ => (0, 0),
    }
}

/// The divisions, which trap on a zero divisor.
pub open spec fn alu_traps(opcode: Opcode, c: u32) -> bool {
    (opcode is DIV || opcode is DIVU || opcode is MOD || opcode is MODU) && c == 0
}

/// Quotient and remainder of two words taken as two's complement integers, rounding towards zero.
fn signed_div_rem(b: u32, c: u32) -> (r: (u32, u32))
    requires
        c != 0,
    ensures
        r.0 == word(trunc_div(signed(b), signed(c))),
        r.1 == word(trunc_rem(signed(b), signed(c))),
{
    let sb: i64 = to_signed(b);
    let sc: i64 = to_signed(c);
    let ub: u64 = if sb < 0 { (-sb) as u64 } else { sb as u64 };
    let uc: u64 = if sc < 0 { (-sc) as u64 } else { sc as u64 };
    proof {
        assert(ub / uc <= ub) by (nonlinear_arith)
            requires
                uc > 0,
        ;
    }
    let q: u64 = ub / uc;
    let m: u64 = ub % uc;
    let qi: i128 = if (sb >= 0) == (sc > 0) { q as i128 } else { -(q as i128) };
    let mi: i128 = if sb >= 0 { m as i128 } else { -(m as i128) };
    (split_words(qi).0, split_words(mi).0)
}

/// Evaluates an arithmetic or logic instruction. Division by zero traps.
pub fn alu_compute(opcode: Opcode, b: u32, c: u32) -> (r: Result<(u32, u32), ExecutionError>)
    requires
        opcode.class() == OpClass::Alu,
    ensures
        alu_traps(opcode, c) ==> r == Err::<(u32, u32), _>(ExecutionError::ExceptionOrTrap()),
        !alu_traps(opcode, c) ==> r == Ok::<_, ExecutionError>(alu_result(opcode, b, c)),
{
    proof {
        assert((c & 0x1f) < 32) by (bit_vector);
        assert(signed(b) * signed(c) <= 0x8000_0000 * 0x8000_0000 && signed(b) * signed(c) >= -0x8000_0000
            * 0x8000_0000) by (nonlinear_arith)
            requires
                -0x8000_0000 <= signed(b) < 0x8000_0000,
                -0x8000_0000 <= signed(c) < 0x8000_0000,
        ;
        assert(0 <= b * c <= 0xffff_ffff * 0xffff_ffff) by (nonlinear_arith);
    }
    let s: u32 = c & 0x1f;
    let zero: u32 = 0;
    match opcode {
        Opcode::ADD => Ok((b.wrapping_add(c), zero)),
        Opcode::SUB => Ok((b.wrapping_sub(c), zero)),
        Opcode::SLL => Ok((b << s, zero)),
        Opcode::SRL => Ok((b >> s, zero)),
        Opcode::SRA => Ok((if b < 0x8000_0000 { b >> s } else { !((!b) >> s) }, zero)),
        Opcode::ROR => {
            proof {
                assert((b as u64) + ((b as u64) << 32) <= 0xffff_ffff_ffff_ffff) by (bit_vector);
            }
            let doubled: u64 = (b as u64) + ((b as u64) << 32);
            let out: u32 = (doubled >> s) as u32;
            proof {
                assert(out == (if s == 0 {
                    b
                } else {
                    (b >> s) | (b << ((32 - s) as u32))
                })) by (bit_vector)
                    requires
                        s < 32,
                        doubled == (b as u64) + ((b as u64) << 32),
                        out == (doubled >> s) as u32,
                ;
            }
            Ok((out, zero))
        },
        Opcode::MUL => Ok((b.wrapping_mul(c), zero)),
        Opcode::SLTU => Ok((if b < c { 1 } else { 0 }, zero)),
        Opcode::SLT => Ok((if to_signed(b) < to_signed(c) { 1 } else { 0 }, zero)),
        Opcode::MULT => {
            let product: i64 = to_signed(b) * to_signed(c);
            Ok(split_words(product as i128))
        },
        Opcode::MULTU => {
            let product: u64 = (b as u64) * (c as u64);
            Ok(((product % WORD_RANGE) as u32, (product / WORD_RANGE) as u32))
        },
        Opcode::DIV => {
            if c == 0 {
                return Err(ExecutionError::ExceptionOrTrap());
            }
            Ok(signed_div_rem(b, c))
        },
        Opcode::DIVU => {
            if c == 0 {
                return Err(ExecutionError::ExceptionOrTrap());
            }
            Ok((b / c, b % c))
        },
        Opcode::MOD => {
            if c == 0 {
                return Err(ExecutionError::ExceptionOrTrap());
            }
            Ok((signed_div_rem(b, c).1, zero))
        },
        Opcode::MODU => {
            if c == 0 {
                return Err(ExecutionError::ExceptionOrTrap());
            }
            Ok((b % c, zero))
        },
        Opcode::AND => Ok((b & c, zero)),
        Opcode::OR => Ok((b | c, zero)),
        Opcode::XOR => Ok((b ^ c, zero)),
        Opcode::NOR => Ok((!(b | c), zero)),
        Opcode::CLZ => Ok((b.leading_zeros(), zero)),
        Opcode::CLO => Ok((b.leading_ones(), zero)),
        _ => Ok((0, zero)),
    }
}

/// An arithmetic right shift is division by a power of two, rounding down.
pub proof fn sra_rounds_down(b: u32, c: u32)
    ensures
        signed(alu_result(Opcode::SRA, b, c).0) == signed(b) / (vstd::arithmetic::power2::pow2(
            (c & 0x1f) as nat,
        ) as int),
{
    let s: u32 = c & 0x1f;
    assert(s < 32) by (bit_vector)
        requires
            s == c & 0x1f,
    ;
    let p = vstd::arithmetic::power2::pow2(s as nat) as int;
    vstd::arithmetic::power2::lemma_pow2_pos(s as nat);
    vstd::bits::lemma_u32_shr_is_div(b, s);
    vstd::bits::lemma_u32_shr_is_div(!b, s);
    let flipped: u32 = (!b) >> s;
    assert(!b == 0xffff_ffff - b) by (bit_vector);
    assert(!flipped == 0xffff_ffff - flipped) by (bit_vector);
    if b < 0x8000_0000 {
        assert(b as int / p <= b) by (nonlinear_arith)
            requires
                p >= 1,
                b >= 0,
        ;
    } else {
        // signed(b) == -1 - !b, and rounding down sends it to -1 - (!b / p).
        let n = 0xffff_ffff - b;
        assert(n / p <= n && n / p >= 0) by (nonlinear_arith)
            requires
                p >= 1,
                n >= 0,
        ;
        assert((-1 - n) / p == -1 - n / p) by (nonlinear_arith)
            requires
                p >= 1,
                n >= 0,
        ;
    }
}

/// Division of signed words recombines: dividend = divisor * quotient + remainder, except for
/// the one quotient that does not fit a word.
pub proof fn signed_division_recombines(b: u32, c: u32)
    requires
        c != 0,
        !(signed(b) == -0x8000_0000 && signed(c) == -1),
    ensures
        signed(b) == signed(c) * signed(alu_result(Opcode::DIV, b, c).0) + signed(
            alu_result(Opcode::DIV, b, c).1,
        ),
{
    let x = signed(b);
    let y = signed(c);
    let q = abs(x) / abs(y);
    let m = abs(x) % abs(y);
    assert(abs(x) == abs(y) * q + m && 0 <= m < abs(y) && 0 <= q <= abs(x)) by (nonlinear_arith)
        requires
            abs(y) > 0,
            abs(x) >= 0,
            q == abs(x) / abs(y),
            m == abs(x) % abs(y),
    ;
    if y == -1 || y == 1 {
        assert(q == abs(x));
    } else {
        assert(q <= 0x4000_0000) by (nonlinear_arith)
            requires
                abs(x) == abs(y) * q + m,
                abs(y) >= 2,
                abs(x) <= 0x8000_0000,
                m >= 0,
        ;
    }
    let tq = trunc_div(x, y);
    assert(y * tq == (if x >= 0 {
        abs(y) * q
    } else {
        -(abs(y) * q)
    })) by (nonlinear_arith)
        requires
            y != 0,
            tq == (if (x >= 0) == (y > 0) {
                q
            } else {
                -q
            }),
            abs(y) == (if y >= 0 {
                y
            } else {
                -y
            }),
    ;
    assert(signed(word(tq)) == tq);
    assert(signed(word(trunc_rem(x, y))) == trunc_rem(x, y));
}

/// Whether a branch is taken.
pub open spec fn takes_branch(opcode: Opcode, src1: u32, src2: u32) -> bool {
    match opcode {
        Opcode::BEQ => src1 == src2,
        Opcode::BNE => src1 != src2,
        Opcode::BGEZ => signed(src1) >= 0,
        Opcode::BLEZ => signed(src1) <= 0,
        Opcode::BGTZ => signed(src1) > 0,
        Opcode::BLTZ => signed(src1) < 0,
        _ => false,
    }
}

/// Whether a branch is taken.
pub fn branch_taken(opcode: Opcode, src1: u32, src2: u32) -> (r: bool)
    requires
        opcode.class() == OpClass::Branch,
    ensures
        r == takes_branch(opcode, src1, src2),
{
    match opcode {
        Opcode::BEQ => src1 == src2,
        Opcode::BNE => src1 != src2,
        Opcode::BGEZ => to_signed(src1) >= 0,
        Opcode::BLEZ => to_signed(src1) <= 0,
        Opcode::BGTZ => to_signed(src1) > 0,
        Opcode::BLTZ => to_signed(src1) < 0,
        _ => false,
    }
}

/// The target of a taken branch, relative to its delay slot.
pub fn branch_target(next_pc: u32, offset: u32) -> (r: u32)
    ensures
        r == word(next_pc + offset),
{
    offset.wrapping_add(next_pc)
}

/// Return address and target of a jump.
pub open spec fn jump_result(opcode: Opcode, next_pc: u32, operand: u32) -> (u32, u32) {
    (
        word(next_pc + 4),
        match opcode {
            Opcode::JumpDirect => word(next_pc + operand),
            _ => operand,
        },
    )
}

/// Return address and target of a jump to a register.
pub fn jump_jr_result(next_pc: u32, target_pc: u32) -> (r: (u32, u32))
    ensures
        r == jump_result(Opcode::Jump, next_pc, target_pc),
{
    (next_pc.wrapping_add(4), target_pc)
}

/// Return address and target of a jump to an encoded address.
pub fn jump_jumpi_result(next_pc: u32, target_pc: u32) -> (r: (u32, u32))
    ensures
        r == jump_result(Opcode::Jumpi, next_pc, target_pc),
{
    (next_pc.wrapping_add(4), target_pc)
}

/// Return address and target of a jump relative to its delay slot.
pub fn jump_direct_result(next_pc: u32, offset: u32) -> (r: (u32, u32))
    ensures
        r == jump_result(Opcode::JumpDirect, next_pc, offset),
{
    (next_pc.wrapping_add(4), offset.wrapping_add(next_pc))
}

/// What a conditional move leaves in its destination.
pub open spec fn moved(opcode: Opcode, prev_a: u32, b: u32, c: u32) -> u32 {
    if (opcode is MEQ) == (c == 0) {
        b
    } else {
        prev_a
    }
}

/// What a conditional move leaves in its destination.
pub fn condmov_result(opcode: Opcode, prev_a: u32, b: u32, c: u32) -> (r: u32)
    requires
        opcode.class() == OpClass::MovCond,
    ensures
        r == moved(opcode, prev_a, b, c),
{
    let mov = match opcode {
        Opcode::MEQ => c == 0,
        _ => c != 0,
    };
    if mov {
        b
    } else {
        prev_a
    }
}

/// The word with the two bytes of each half swapped.
pub open spec fn swap_halves_bytes(b: u32) -> u32 {
    ((b & 0xff00_ff00) >> 8) | ((b & 0x00ff_00ff) << 8)
}

/// Swap the bytes within each half of the word.
pub fn wsbh(b: u32) -> (r: u32)
    ensures
        r == swap_halves_bytes(b),
{
    let r: u32 = (((b >> 16) & 0xFF) << 24) | (((b >> 24) & 0xFF) << 16) | ((b & 0xFF) << 8) | ((b
        >> 8) & 0xFF);
    proof {
        assert(r == ((b & 0xff00_ff00) >> 8) | ((b & 0x00ff_00ff) << 8)) by (bit_vector)
            requires
                r == (((b >> 16) & 0xFF) << 24) | (((b >> 24) & 0xFF) << 16) | ((b & 0xFF) << 8) | ((b
                    >> 8) & 0xFF),
        ;
    }
    r
}

/// The bit field of `b` whose lowest bit is `c & 31` and whose width is `(c >> 5) + 1`.
pub open spec fn extract(b: u32, c: u32) -> u32 {
    (b >> (c & 0x1f)) & low_mask(((c >> 5) + 1) as u32)
}

/// Whether the bit field that `c` encodes for an extraction runs past the word.
pub open spec fn extract_traps(c: u32) -> bool {
    (c >> 5) + (c & 0x1f) >= 32
}

/// Extract a bit field.
pub fn ext(b: u32, c: u32) -> (r: Result<u32, ExecutionError>)
    ensures
        extract_traps(c) ==> r == Err::<u32, _>(ExecutionError::ExceptionOrTrap()),
        !extract_traps(c) ==> r == Ok::<_, ExecutionError>(extract(b, c)),
{
    let msbd: u32 = c >> 5;
    let lsb: u32 = c & 0x1f;
    proof {
        assert(msbd < 0x800_0000 && lsb < 32) by (bit_vector)
            requires
                msbd == c >> 5,
                lsb == c & 0x1f,
        ;
    }
    if msbd + lsb >= 32 {
        return Err(ExecutionError::ExceptionOrTrap());
    }
    let top: u32 = msbd + lsb + 1;
    proof {
        assert(top < 32 ==> 1u32 << top >= 1) by (bit_vector);
    }
    let mask_msb: u32 = if top == 32 { 0xFFFF_FFFF } else { (1u32 << top) - 1 };
    let a: u32 = (b & mask_msb) >> lsb;
    proof {
        let width: u32 = (msbd + 1) as u32;
        let mask: u32 = low_mask(width);
        assert(a == (b >> lsb) & mask) by (bit_vector)
            requires
                top == msbd + lsb + 1,
                msbd + lsb < 32,
                msbd < 32,
                lsb < 32,
                width == msbd + 1,
                mask == (if width >= 32 {
                    0xffff_ffffu32
                } else {
                    ((1u32 << width) - 1) as u32
                }),
                mask_msb == (if top == 32 {
                    0xFFFF_FFFFu32
                } else {
                    ((1u32 << top) - 1) as u32
                }),
                a == (b & mask_msb) >> lsb,
        ;
    }
    Ok(a)
}

/// The mask of the bit field whose lowest bit is `c & 31` and whose highest bit is `c >> 5`.
pub open spec fn insert_mask(c: u32) -> u32 {
    low_mask(((c >> 5) - (c & 0x1f) + 1) as u32) << (c & 0x1f)
}

/// `a` with the bit field that `c` encodes replaced by the low bits of `b`.
pub open spec fn inserted(a: u32, b: u32, c: u32) -> u32 {
    (a & !insert_mask(c)) | ((b << (c & 0x1f)) & insert_mask(c))
}

/// Whether the bit field that `c` encodes for an insertion is empty or wider than a word.
pub open spec fn insert_traps(c: u32) -> bool {
    (c >> 5) < (c & 0x1f) || (c >> 5) - (c & 0x1f) >= 32
}

/// Insert a bit field.
pub fn ins(a: u32, b: u32, c: u32) -> (r: Result<u32, ExecutionError>)
    ensures
        insert_traps(c) ==> r == Err::<u32, _>(ExecutionError::ExceptionOrTrap()),
        !insert_traps(c) ==> r == Ok::<_, ExecutionError>(inserted(a, b, c)),
{
    let msb: u32 = c >> 5;
    let lsb: u32 = c & 0x1f;
    proof {
        assert(lsb < 32) by (bit_vector)
            requires
                lsb == c & 0x1f,
        ;
    }
    if msb < lsb || msb - lsb >= 32 {
        return Err(ExecutionError::ExceptionOrTrap());
    }
    let width: u32 = msb - lsb + 1;
    proof {
        assert(width < 32 ==> 1u32 << width >= 1) by (bit_vector);
    }
    let mask: u32 = if width == 32 { 0xFFFF_FFFF } else { (1u32 << width) - 1 };
    let mask_field: u32 = mask << lsb;
    Ok((a & !mask_field) | ((b << lsb) & mask_field))
}

/// The low `bits` bits of a value, taken as two's complement and widened to a word.
pub open spec fn extended(value: u32, bits: u32) -> u32 {
    let low = value & low_mask(bits);
    if low >> ((bits - 1) as u32) == 0 {
        low
    } else {
        low | !low_mask(bits)
    }
}

/// Sign-extend the low `BITS` bits of a value.
pub fn sign_extend<const BITS: u32>(value: u32) -> (r: u32)
    requires
        1 <= BITS <= 32,
    ensures
        r == extended(value, BITS),
{
    let shift: u32 = 32 - BITS;
    let up: u32 = value << shift;
    let r: u32 = if up < 0x8000_0000 { up >> shift } else { !((!up) >> shift) };
    proof {
        let bits: u32 = BITS;
        let mask: u32 = low_mask(bits);
        assert(r == ({
            let low = value & mask;
            if low >> ((bits - 1) as u32) == 0 {
                low
            } else {
                low | !mask
            }
        })) by (bit_vector)
            requires
                1 <= bits <= 32,
                shift == 32 - bits,
                up == value << shift,
                mask == (if bits >= 32 {
                    0xffff_ffffu32
                } else {
                    ((1u32 << bits) - 1) as u32
                }),
                r == (if up < 0x8000_0000u32 {
                    up >> shift
                } else {
                    !((!up) >> shift)
                }),
        ;
    }
    r
}

/// Sign-extend the low half of `b` if `c` is positive, else its low byte.
pub open spec fn sext_result(b: u32, c: u32) -> u32 {
    if c > 0 {
        extended(b, 16)
    } else {
        extended(b, 8)
    }
}

/// Sign-extend the low half of `b` if `c` is positive, else its low byte.
pub fn sext(b: u32, c: u32) -> (r: u32)
    ensures
        r == sext_result(b, c),
{
    if c > 0 {
        sign_extend::<16>(b)
    } else {
        sign_extend::<8>(b)
    }
}

/// Trap if the operands are equal.
pub fn teq(src1: u32, src2: u32) -> (r: Result<(), ExecutionError>)
    ensures
        src1 == src2 ==> r == Err::<(), _>(ExecutionError::ExceptionOrTrap()),
        src1 != src2 ==> r == Ok::<_, ExecutionError>(()),
{
    if src1 == src2 {
        return Err(ExecutionError::ExceptionOrTrap());
    }
    Ok(())
}

/// The accumulator that `HI` and `LO` hold.
pub open spec fn accumulator(lo: u32, hi: u32) -> int {
    hi * 0x1_0000_0000 + lo
}

/// The accumulator after a multiply-accumulate, modulo `2^64`, as `LO` and `HI`.
pub open spec fn madd_result(opcode: Opcode, b: u32, c: u32, lo: u32, hi: u32) -> (u32, u32) {
    let acc = accumulator(lo, hi);
    let out = match opcode {
        Opcode::MADDU => acc + b * c,
        Opcode::MSUBU => acc - b * c,
        Opcode::MADD => acc + signed(b) * signed(c),
        _ => acc - signed(b) * signed(c),
    };
    (word(out), high_word(out))
}

/// Unsigned multiply-add.
pub fn maddu(b: u32, c: u32, lo: u32, hi: u32) -> (r: (u32, u32))
    ensures
        r == madd_result(Opcode::MADDU, b, c, lo, hi),
{
    proof {
        assert(0 <= b * c <= 0xffff_ffff * 0xffff_ffff) by (nonlinear_arith);
    }
    let product: i128 = ((b as u64) * (c as u64)) as i128;
    split_words((hi as i128) * 0x1_0000_0000 + (lo as i128) + product)
}

/// Unsigned multiply-subtract.
pub fn msubu(b: u32, c: u32, lo: u32, hi: u32) -> (r: (u32, u32))
    ensures
        r == madd_result(Opcode::MSUBU, b, c, lo, hi),
{
    proof {
        assert(0 <= b * c <= 0xffff_ffff * 0xffff_ffff) by (nonlinear_arith);
    }
    let product: i128 = ((b as u64) * (c as u64)) as i128;
    split_words((hi as i128) * 0x1_0000_0000 + (lo as i128) - product)
}

/// The product of two words taken as two's complement integers.
fn signed_product(b: u32, c: u32) -> (r: i128)
    ensures
        r == signed(b) * signed(c),
        -0x8000_0000 * 0x8000_0000 <= r <= 0x8000_0000 * 0x8000_0000,
{
    proof {
        assert(signed(b) * signed(c) <= 0x8000_0000 * 0x8000_0000 && signed(b) * signed(c) >= -0x8000_0000
            * 0x8000_0000) by (nonlinear_arith)
            requires
                -0x8000_0000 <= signed(b) < 0x8000_0000,
                -0x8000_0000 <= signed(c) < 0x8000_0000,
        ;
    }
    (to_signed(b) * to_signed(c)) as i128
}

/// Signed multiply-add.
pub fn madd(b: u32, c: u32, lo: u32, hi: u32) -> (r: (u32, u32))
    ensures
        r == madd_result(Opcode::MADD, b, c, lo, hi),
{
    let product: i128 = signed_product(b, c);
    split_words((hi as i128) * 0x1_0000_0000 + (lo as i128) + product)
}

/// Signed multiply-subtract.
pub fn msub(b: u32, c: u32, lo: u32, hi: u32) -> (r: (u32, u32))
    ensures
        r == madd_result(Opcode::MSUB, b, c, lo, hi),
{
    let product: i128 = signed_product(b, c);
    split_words((hi as i128) * 0x1_0000_0000 + (lo as i128) - product)
}

/// Multiply-subtract undoes multiply-add.
pub proof fn msubu_undoes_maddu(b: u32, c: u32, lo: u32, hi: u32)
    ensures
        ({
            let mid = madd_result(Opcode::MADDU, b, c, lo, hi);
            madd_result(Opcode::MSUBU, b, c, mid.0, mid.1) == (lo, hi)
        }),
{
    let p = b * c;
    assert(0 <= p <= 0xffff_ffff * 0xffff_ffff) by (nonlinear_arith)
        requires
            p == b * c,
    ;
    let acc = accumulator(lo, hi);
    let out = acc + p;
    let mid = madd_result(Opcode::MADDU, b, c, lo, hi);
    let wraps: int = if out >= 0x1_0000_0000_0000_0000 {
        1
    } else {
        0
    };
    assert(accumulator(mid.0, mid.1) == out - wraps * 0x1_0000_0000_0000_0000);
    let back = accumulator(mid.0, mid.1) - p;
    let high = hi - wraps * 0x1_0000_0000;
    assert(back == high * 0x1_0000_0000 + lo);
    assert(back % 0x1_0000_0000 == lo);
    assert(back / 0x1_0000_0000 == high);
    assert(high % 0x1_0000_0000 == hi);
}

/// The load opcodes that demand alignment, and the addresses they reject.
pub open spec fn load_misaligned(opcode: Opcode, addr: u32) -> bool {
    match opcode {
        Opcode::LH | Opcode::LHU => addr % 2 != 0,
        Opcode::LW | Opcode::LL => addr % 4 != 0,
        _ => false,
    }
}

/// The byte of a little-endian word.
pub open spec fn byte_of(mem: u32, i: u32) -> u32 {
    (mem >> ((i * 8) as u32)) & 0xff
}

/// The half of a little-endian word.
pub open spec fn half_of(mem: u32, i: u32) -> u32 {
    (mem >> ((i * 16) as u32)) & 0xffff
}

/// What a load writes to its destination, given the aligned word and the old destination.
pub open spec fn loaded(opcode: Opcode, addr: u32, mem: u32, rt: u32) -> u32 {
    let i = addr % 4;
    match opcode {
        Opcode::LB => extended(byte_of(mem, i), 8),
        Opcode::LBU => byte_of(mem, i),
        Opcode::LH => extended(half_of(mem, i / 2), 16),
        Opcode::LHU => half_of(mem, i / 2),
        Opcode::LW | Opcode::LL => mem,
        Opcode::LWL => if i == 0 {
            (rt & 0x00FF_FFFF) | (mem << 24u32)
        } else if i == 1 {
            (rt & 0x0000_FFFF) | (mem << 16u32)
        } else if i == 2 {
            (rt & 0x0000_00FF) | (mem << 8u32)
        } else {
            mem
        },
        Opcode::LWR => if i == 0 {
            mem
        } else if i == 1 {
            (rt & 0xFF00_0000) | (mem >> 8u32)
        } else if i == 2 {
            (rt & 0xFFFF_0000) | (mem >> 16u32)
        } else {
            (rt & 0xFFFF_FF00) | (mem >> 24u32)
        },
        _ => mem,
    }
}

/// Evaluates a load: the value for the destination, or the alignment error.
pub fn load_value(opcode: Opcode, addr: u32, mem: u32, rt: u32) -> (r: Result<u32, ExecutionError>)
    requires
        opcode.class() == OpClass::Load,
    ensures
        load_misaligned(opcode, addr) ==> r == Err::<u32, _>(
            ExecutionError::InvalidMemoryAccess(opcode, addr),
        ),
        !load_misaligned(opcode, addr) ==> r == Ok::<_, ExecutionError>(
            loaded(opcode, addr, mem, rt),
        ),
{
    let i: u32 = addr % 4;
    match opcode {
        Opcode::LH => {
            if addr % 2 != 0 {
                return Err(ExecutionError::InvalidMemoryAccess(Opcode::LH, addr));
            }
            Ok(sign_extend::<16>((mem >> (i * 8)) & 0xffff))
        },
        Opcode::LWL => {
            let shift: u32 = 24 - i * 8;
            let mask: u32 = 0xFFFF_FFFFu32 << shift;
            let val: u32 = (rt & (!mask)) | (mem << shift);
            proof {
                assert(val == (if i == 0 {
                    (rt & 0x00FF_FFFF) | (mem << 24u32)
                } else if i == 1 {
                    (rt & 0x0000_FFFF) | (mem << 16u32)
                } else if i == 2 {
                    (rt & 0x0000_00FF) | (mem << 8u32)
                } else {
                    mem
                })) by (bit_vector)
                    requires
                        i < 4,
                        shift == 24 - i * 8,
                        mask == 0xFFFF_FFFFu32 << shift,
                        val == (rt & (!mask)) | (mem << shift),
                ;
            }
            Ok(val)
        },
        Opcode::LW => {
            if i != 0 {
                return Err(ExecutionError::InvalidMemoryAccess(Opcode::LW, addr));
            }
            Ok(mem)
        },
        Opcode::LBU => Ok((mem >> (i * 8)) & 0xff),
        Opcode::LHU => {
            if addr % 2 != 0 {
                return Err(ExecutionError::InvalidMemoryAccess(Opcode::LHU, addr));
            }
            Ok((mem >> (i * 8)) & 0xffff)
        },
        Opcode::LWR => {
            let shift: u32 = i * 8;
            let mask: u32 = 0xFFFF_FFFFu32 >> shift;
            let val: u32 = (rt & (!mask)) | (mem >> shift);
            proof {
                assert(val == (if i == 0 {
                    mem
                } else if i == 1 {
                    (rt & 0xFF00_0000) | (mem >> 8u32)
                } else if i == 2 {
                    (rt & 0xFFFF_0000) | (mem >> 16u32)
                } else {
                    (rt & 0xFFFF_FF00) | (mem >> 24u32)
                })) by (bit_vector)
                    requires
                        i < 4,
                        shift == i * 8,
                        mask == 0xFFFF_FFFFu32 >> shift,
                        val == (rt & (!mask)) | (mem >> shift),
                ;
            }
            Ok(val)
        },
        Opcode::LL => {
            if i != 0 {
                return Err(ExecutionError::InvalidMemoryAccess(Opcode::LL, addr));
            }
            Ok(mem)
        },
        Opcode::LB => Ok(sign_extend::<8>((mem >> (i * 8)) & 0xff)),
        _ => Ok(mem),
    }
}

/// The store opcodes that demand alignment, and the addresses they reject.
pub open spec fn store_misaligned(opcode: Opcode, addr: u32) -> bool {
    match opcode {
        Opcode::SH => addr % 2 != 0,
        Opcode::SW | Opcode::SC => addr % 4 != 0,
        _ => false,
    }
}

/// The word a store leaves in memory, given the word that was there.
pub open spec fn stored(opcode: Opcode, addr: u32, mem: u32, rt: u32) -> u32 {
    let i = addr % 4;
    match opcode {
        Opcode::SB => (mem & !(0xffu32 << ((i * 8) as u32))) | ((rt & 0xff) << ((i * 8) as u32)),
        Opcode::SH => (mem & !(0xffffu32 << ((i / 2 * 16) as u32))) | ((rt & 0xffff) << ((i / 2
            * 16) as u32)),
        Opcode::SWL => if i == 0 {
            (mem & 0xFFFF_FF00) | (rt >> 24u32)
        } else if i == 1 {
            (mem & 0xFFFF_0000) | (rt >> 16u32)
        } else if i == 2 {
            (mem & 0xFF00_0000) | (rt >> 8u32)
        } else {
            rt
        },
        Opcode::SWR => if i == 0 {
            rt
        } else if i == 1 {
            (mem & 0x0000_00FF) | (rt << 8u32)
        } else if i == 2 {
            (mem & 0x0000_FFFF) | (rt << 16u32)
        } else {
            (mem & 0x00FF_FFFF) | (rt << 24u32)
        },
        _ => rt,
    }
}

/// Evaluates a store: the word for memory, or the alignment error.
pub fn store_value(opcode: Opcode, addr: u32, mem: u32, rt: u32) -> (r: Result<u32, ExecutionError>)
    requires
        opcode.class() == OpClass::Store,
    ensures
        store_misaligned(opcode, addr) ==> r == Err::<u32, _>(
            ExecutionError::InvalidMemoryAccess(opcode, addr),
        ),
        !store_misaligned(opcode, addr) ==> r == Ok::<_, ExecutionError>(
            stored(opcode, addr, mem, rt),
        ),
{
    let i: u32 = addr % 4;
    match opcode {
        Opcode::SB => {
            let shift: u32 = i * 8;
            let field: u32 = 0xffu32 << shift;
            let mask: u32 = 0xFFFF_FFFFu32 ^ field;
            proof {
                assert(0xFFFF_FFFFu32 ^ field == !field) by (bit_vector);
            }
            Ok((mem & mask) | ((rt & 0xff) << shift))
        },
        Opcode::SH => {
            if addr % 2 != 0 {
                return Err(ExecutionError::InvalidMemoryAccess(Opcode::SH, addr));
            }
            let shift: u32 = i * 8;
            let field: u32 = 0xffffu32 << shift;
            let mask: u32 = 0xFFFF_FFFFu32 ^ field;
            proof {
                assert(0xFFFF_FFFFu32 ^ field == !field) by (bit_vector);
            }
            Ok((mem & mask) | ((rt & 0xffff) << shift))
        },
        Opcode::SWL => {
            let shift: u32 = 24 - i * 8;
            let mask: u32 = 0xFFFF_FFFFu32 >> shift;
            let val: u32 = (mem & (!mask)) | (rt >> shift);
            proof {
                assert(val == (if i == 0 {
                    (mem & 0xFFFF_FF00) | (rt >> 24u32)
                } else if i == 1 {
                    (mem & 0xFFFF_0000) | (rt >> 16u32)
                } else if i == 2 {
                    (mem & 0xFF00_0000) | (rt >> 8u32)
                } else {
                    rt
                })) by (bit_vector)
                    requires
                        i < 4,
                        shift == 24 - i * 8,
                        mask == 0xFFFF_FFFFu32 >> shift,
                        val == (mem & (!mask)) | (rt >> shift),
                ;
            }
            Ok(val)
        },
        Opcode::SW => {
            if i != 0 {
                return Err(ExecutionError::InvalidMemoryAccess(Opcode::SW, addr));
            }
            Ok(rt)
        },
        Opcode::SWR => {
            let shift: u32 = i * 8;
            let mask: u32 = 0xFFFF_FFFFu32 << shift;
            let val: u32 = (mem & (!mask)) | (rt << shift);
            proof {
                assert(val == (if i == 0 {
                    rt
                } else if i == 1 {
                    (mem & 0x0000_00FF) | (rt << 8u32)
                } else if i == 2 {
                    (mem & 0x0000_FFFF) | (rt << 16u32)
                } else {
                    (mem & 0x00FF_FFFF) | (rt << 24u32)
                })) by (bit_vector)
                    requires
                        i < 4,
                        shift == i * 8,
                        mask == 0xFFFF_FFFFu32 << shift,
                        val == (mem & (!mask)) | (rt << shift),
                ;
            }
            Ok(val)
        },
        Opcode::SC => {
            if i != 0 {
                return Err(ExecutionError::InvalidMemoryAccess(Opcode::SC, addr));
            }
            Ok(rt)
        },
        _ => Ok(rt),
    }
}

/// A byte that was stored is the byte that is loaded back, whatever the word held before.
pub proof fn loading_a_stored_byte(addr: u32, mem: u32, rt: u32, old: u32)
    ensures
        loaded(Opcode::LBU, addr, stored(Opcode::SB, addr, mem, rt), old) == rt & 0xff,
{
    let i: u32 = addr % 4;
    let s: u32 = (i * 8) as u32;
    assert((((mem & !(0xffu32 << s)) | ((rt & 0xff) << s)) >> s) & 0xff == rt & 0xff) by (bit_vector)
        requires
            s <= 24,
    ;
}

/// An unaligned word written by the left and right stores is read back by the left and right
/// loads: the pair covers the word exactly.
pub proof fn unaligned_pair_covers_the_word(mem: u32, rt: u32, old: u32)
    ensures
        stored(Opcode::SWL, 3, mem, rt) == rt,
        stored(Opcode::SWR, 0, mem, rt) == rt,
        loaded(Opcode::LWL, 3, rt, old) == rt,
        loaded(Opcode::LWR, 0, rt, old) == rt,
{
}

/// The clock to execute the next instruction at: if the current window of the clock has no room
/// for the widest access offset on top of the longest system call, the start of the next window.
pub open spec fn bumped_clk(clk: u64, max_syscall_cycles: u32) -> int {
    if clk % CORE_SHARD_CLK_LIMIT + max_syscall_cycles + 4 >= CORE_SHARD_CLK_LIMIT {
        clk - clk % CORE_SHARD_CLK_LIMIT + CORE_SHARD_CLK_LIMIT
    } else {
        clk as int
    }
}

/// Advances the clock to the next window where the current one has no room.
pub fn bump_clk_high_if_need(clk: u64, max_syscall_cycles: u32) -> (r: u64)
    requires
        clk <= u64::MAX - CORE_SHARD_CLK_LIMIT,
    ensures
        r == bumped_clk(clk, max_syscall_cycles),
        clk <= r,
{
    let low: u64 = clk % CORE_SHARD_CLK_LIMIT;
    if low + (max_syscall_cycles as u64) + 4 >= CORE_SHARD_CLK_LIMIT {
        clk - low + CORE_SHARD_CLK_LIMIT
    } else {
        clk
    }
}

/// Every timestamp an instruction uses lies in one clock window.
pub proof fn bumped_clk_has_room(clk: u64, max_syscall_cycles: u32, offset: int)
    requires
        max_syscall_cycles + 4 < CORE_SHARD_CLK_LIMIT,
        0 <= offset <= max_syscall_cycles + 4,
    ensures
        (bumped_clk(clk, max_syscall_cycles) + offset) / (CORE_SHARD_CLK_LIMIT as int) == bumped_clk(
            clk,
            max_syscall_cycles,
        ) / (CORE_SHARD_CLK_LIMIT as int),
{
}

/// The new break, or an error if it lies past the heap or the memory. The break never shrinks
/// below the current one.
pub open spec fn brk_result(initial_brk: u32, current_brk: u32, requested: u32) -> Result<
    u32,
    ExecutionError,
> {
    let limit = if initial_brk + MAX_HEAP_SIZE < MAX_MEMORY {
        initial_brk + MAX_HEAP_SIZE
    } else {
        MAX_MEMORY as int
    };
    let v0 = if requested >= current_brk {
        requested
    } else {
        current_brk
    };
    if initial_brk + MAX_HEAP_SIZE > u32::MAX || v0 > limit {
        Err(ExecutionError::InvalidSyscallArgs())
    } else {
        Ok(v0)
    }
}

/// Resolves a request to move the break.
pub fn resolve_brk(initial_brk: u32, current_brk: u32, requested: u32) -> (r: Result<
    u32,
    ExecutionError,
>)
    ensures
        r == brk_result(initial_brk, current_brk, requested),
{
    let limit: u32 = match initial_brk.checked_add(MAX_HEAP_SIZE) {
        None => {
            return Err(ExecutionError::InvalidSyscallArgs());
        },
        Some(l) => if (l as usize) < MAX_MEMORY {
            l
        } else {
            MAX_MEMORY as u32
        },
    };
    let v0: u32 = if requested >= current_brk { requested } else { current_brk };
    if v0 > limit {
        return Err(ExecutionError::InvalidSyscallArgs());
    }
    Ok(v0)
}

/// The page granularity of guest mappings.
pub const PAGE_ADDR_SIZE: u32 = 0x1000;

/// A size rounded up to whole pages, or an error if that does not fit a word.
pub open spec fn aligned_size(size: u32) -> Result<u32, ExecutionError> {
    let up = (size + 0xfff) / 0x1000 * 0x1000;
    if up > u32::MAX {
        Err(ExecutionError::InvalidSyscallArgs())
    } else {
        Ok(up as u32)
    }
}

/// Rounds a size up to whole pages.
pub fn align_size(size: u32) -> (r: Result<u32, ExecutionError>)
    ensures
        r == aligned_size(size),
{
    let up: u64 = (size as u64 + 0xfff) / 0x1000 * 0x1000;
    if up > 0xffff_ffff {
        return Err(ExecutionError::InvalidSyscallArgs());
    }
    Ok(up as u32)
}

/// The error number of a bad file descriptor.
pub const MIPS_EBADF: u32 = 9;

/// Result and error flag of a `fcntl`: reading the status flags of the standard descriptors
/// gives their access mode, everything else is an unknown descriptor.
pub open spec fn fcntl_values(fd: u32, cmd: u32) -> (u32, u32) {
    if cmd == 3 && fd == 0 {
        (0, 0)
    } else if cmd == 3 && (fd == 1 || fd == 2) {
        (1, 0)
    } else {
        (0xffff_ffff, MIPS_EBADF)
    }
}

/// Result and error flag of a `fcntl`.
pub fn fcntl_result(fd: u32, cmd: u32) -> (r: (u32, u32))
    ensures
        r == fcntl_values(fd, cmd),
{
    if cmd == 3 && fd == 0 {
        (0, 0)
    } else if cmd == 3 && (fd == 1 || fd == 2) {
        (1, 0)
    } else {
        (0xffff_ffff, MIPS_EBADF)
    }
}

/// Result and error flag of a `read`: standard input is at its end, other descriptors are unknown.
pub open spec fn read_values(fd: u32) -> (u32, u32) {
    if fd == 0 {
        (0, 0)
    } else {
        (0xffff_ffff, MIPS_EBADF)
    }
}

/// Result and error flag of a `read`.
pub fn read_result(fd: u32) -> (r: (u32, u32))
    ensures
        r == read_values(fd),
{
    if fd == 0 {
        (0, 0)
    } else {
        (0xffff_ffff, MIPS_EBADF)
    }
}

} // verus!
