//! Where guest registers and the counters of a run live on the host.
//!
//! A few guest registers are held in general-purpose registers, and so are the clock and the number
//! of the shard. The program counter and the number of instructions executed stay in the executor.
//! Every other guest register has a lane of a vector register: registers `2n` and `2n + 1` share the low half of vector register `n`, and
//! `LO` and `HI` the high half of vector register 13.
use vstd::prelude::*;

use crate::aot::host;
use crate::aot::host::{render, Line, Op, Operand, Reg};

verus! {

pub const REG_FIRST_ARG: Reg = Reg::Rdi;

pub const REG_SECOND_ARG: Reg = Reg::Rsi;

pub const REG_THIRD_ARG: Reg = Reg::Rdx;

pub const REG_A: Reg = Reg::Rdi;

pub const REG_A_W: Reg = Reg::Edi;

pub const REG_B: Reg = Reg::Rsi;

pub const REG_B_W: Reg = Reg::Esi;

pub const REG_C: Reg = Reg::Rdx;

pub const REG_C_W: Reg = Reg::Edx;

pub const REG_D: Reg = Reg::Rax;

pub const REG_D_W: Reg = Reg::Eax;

pub const REG_D_8L: Reg = Reg::Al;

/// Where functions leave their result.
pub const REG_RETURN_VAL: Reg = Reg::Rax;

/// Holds the address of a function to call.
pub const REG_CALLER: Reg = Reg::Rax;

/// The low half of a product, or a quotient.
pub const REG_LO: Reg = Reg::Eax;

pub const REG_LO_64: Reg = Reg::Rax;

/// The high half of a product, or a remainder.
pub const REG_HI: Reg = Reg::Edx;

pub const REG_HI_64: Reg = Reg::Rdx;

/// The distance of a rotation.
pub const REG_ROR_W: Reg = Reg::Ecx;

pub const REG_ROR_8L: Reg = Reg::Cl;

/// The divisor of the global clock.
pub const REG_DIVISOR: Reg = Reg::Rcx;

/// The executor.
pub const REG_EXECUTOR_PTR: Reg = Reg::Rbx;

/// The start of guest memory.
pub const REG_MEMORY_PTR: Reg = Reg::R15;

/// The clock of the shard.
pub const REG_CLK: Reg = Reg::R12;

pub const REG_CLK_W: Reg = Reg::R12d;

/// The number of the shard.
pub const REG_SHARD: Reg = Reg::R14;

pub const REG_SHARD_W: Reg = Reg::R14d;

/// The vector register whose high half points to the guest registers.
pub const REG_ADDR_SPACE: u8 = 0;

/// The vector register whose high half points to the shards of the register accesses.
pub const ACCESS_REG_SHARD: u8 = 1;

/// The vector register whose high half points to the clocks of the register accesses.
pub const ACCESS_REG_CLK: u8 = 2;

/// The vector register whose high half points to the shards of the memory accesses.
pub const ACCESS_MEM_SHARD: u8 = 3;

/// The vector register whose high half points to the clocks of the memory accesses.
pub const ACCESS_MEM_CLK: u8 = 4;

/// The vector register whose high half keeps a result across the restoration of the registers.
pub const TMP: u8 = 6;

/// The number of guest registers that have a place on the host.
pub const HOSTED_REGISTERS: u8 = 34;

/// The general-purpose register that holds a guest register, if one does.
pub open spec fn overriding(reg: u8) -> Option<Reg> {
    match reg {
        10 => Some(Reg::R10d),
        11 => Some(Reg::R11d),
        12 => Some(Reg::R9d),
        13 => Some(Reg::R8d),
        14 => Some(Reg::Ebp),
        15 => Some(Reg::R13d),
        _ => None,
    }
}

/// The general-purpose register that holds a guest register, if one does.
pub fn overriding_register(reg: u8) -> (r: Option<Reg>)
    ensures
        r == overriding(reg),
{
    match reg {
        10 => Some(Reg::R10d),
        11 => Some(Reg::R11d),
        12 => Some(Reg::R9d),
        13 => Some(Reg::R8d),
        14 => Some(Reg::Ebp),
        15 => Some(Reg::R13d),
        _ => None,
    }
}

/// The general-purpose register that holds a guest register, or else a given one.
pub open spec fn overriding_or(reg: u8, scratch: Reg) -> Reg {
    match overriding(reg) {
        Some(held) => held,
        None => scratch,
    }
}

/// The general-purpose register that holds a guest register, or else a given one.
pub fn overriding_register_or(reg: u8, scratch: Reg) -> (r: Reg)
    ensures
        r == overriding_or(reg, scratch),
{
    match overriding_register(reg) {
        Some(held) => held,
        None => scratch,
    }
}

/// The vector register of a guest register.
pub open spec fn vector(reg: u8) -> u8 {
    if reg < 32 {
        reg / 2
    } else {
        13
    }
}

/// The lane of a guest register in its vector register.
pub open spec fn lane(reg: u8) -> u8 {
    if reg < 32 {
        reg % 2
    } else {
        (reg - 30) as u8
    }
}

/// The vector register and the lane of a guest register.
pub fn vector_and_lane(reg: u8) -> (r: (u8, u8))
    requires
        reg < HOSTED_REGISTERS,
    ensures
        r == (vector(reg), lane(reg)),
{
    if reg < 32 {
        (reg / 2, reg % 2)
    } else {
        (13, reg - 30)
    }
}

/// Where the value of a guest register is after it was fetched.
pub open spec fn place(reg: u8, dst: Reg, force: bool) -> Reg {
    match overriding(reg) {
        Some(held) => if force {
            dst
        } else {
            held
        },
        None => dst,
    }
}

/// Code that fetches the value of a guest register.
pub open spec fn fetch(reg: u8, dst: Reg, force: bool) -> Seq<Line> {
    match overriding(reg) {
        Some(held) => if force {
            seq![Line::Op2(2, Op::Mov, Operand::R(dst), Operand::R(held))]
        } else {
            Seq::empty()
        },
        None => seq![
            Line::Op3(
                3,
                Op::Pextrd,
                Operand::R(dst),
                Operand::X(vector(reg)),
                Operand::I(lane(reg) as u64),
            ),
        ],
    }
}

/// Code that gives a guest register a value.
pub open spec fn stow(src: Reg, reg: u8) -> Seq<Line> {
    match overriding(reg) {
        Some(held) => if src == held {
            Seq::empty()
        } else {
            seq![Line::Op2(3, Op::Mov, Operand::R(held), Operand::R(src))]
        },
        None => seq![
            Line::Op3(
                3,
                Op::Pinsrd,
                Operand::X(vector(reg)),
                Operand::R(src),
                Operand::I(lane(reg) as u64),
            ),
        ],
    }
}

/// Code that fetches the value of a guest register, and where the value is then.
pub fn fetch_register(reg: u8, dst: Reg, force: bool) -> (r: (Reg, Vec<Line>))
    requires
        reg < HOSTED_REGISTERS,
    ensures
        r.0 == place(reg, dst, force),
        r.1@ == fetch(reg, dst, force),
{
    let mut lines: Vec<Line> = Vec::new();
    match overriding_register(reg) {
        Some(held) => {
            if force {
                lines.push(Line::Op2(2, Op::Mov, Operand::R(dst), Operand::R(held)));
                (dst, lines)
            } else {
                (held, lines)
            }
        },
        None => {
            let (vector, lane) = vector_and_lane(reg);
            lines.push(
                Line::Op3(
                    3,
                    Op::Pextrd,
                    Operand::R(dst),
                    Operand::X(vector),
                    Operand::I(lane as u64),
                ),
            );
            (dst, lines)
        },
    }
}

/// Code that gives a guest register a value.
pub fn stow_register(src: Reg, reg: u8) -> (r: Vec<Line>)
    requires
        reg < HOSTED_REGISTERS,
    ensures
        r@ == stow(src, reg),
{
    let mut lines: Vec<Line> = Vec::new();
    match overriding_register(reg) {
        Some(held) => {
            if src != held {
                lines.push(Line::Op2(3, Op::Mov, Operand::R(held), Operand::R(src)));
            }
        },
        None => {
            let (vector, lane) = vector_and_lane(reg);
            lines.push(
                Line::Op3(
                    3,
                    Op::Pinsrd,
                    Operand::X(vector),
                    Operand::R(src),
                    Operand::I(lane as u64),
                ),
            );
        },
    }
    lines
}

/// The assembly that fetches the value of a guest register into `x86_dst_reg`, unless a
/// general-purpose register holds it and `is_gpr_force_write` is not set; and the register that
/// holds the value then.
pub fn xmm_to_gpr(mips_src_reg: u8, x86_dst_reg: Reg, is_gpr_force_write: bool) -> (r: (
    Reg,
    String,
))
    requires
        mips_src_reg < HOSTED_REGISTERS,
    ensures
        r.0 == place(mips_src_reg, x86_dst_reg, is_gpr_force_write),
        r.1@ == host::listing_text(fetch(mips_src_reg, x86_dst_reg, is_gpr_force_write)),
{
    let (place, lines) = fetch_register(mips_src_reg, x86_dst_reg, is_gpr_force_write);
    (place, render(&lines))
}

/// The assembly that gives a guest register the value of `x86_dst_reg`.
pub fn gpr_to_xmm(x86_dst_reg: Reg, mips_src_reg: u8) -> (r: String)
    requires
        mips_src_reg < HOSTED_REGISTERS,
    ensures
        r@ == host::listing_text(stow(x86_dst_reg, mips_src_reg)),
{
    render(&stow_register(x86_dst_reg, mips_src_reg))
}

/// Code that copies the lanes of the first `n` guest registers to the general-purpose registers
/// that hold them.
pub open spec fn lanes_to_holders(n: int) -> Seq<Line>
    decreases n,
{
    if n <= 0 {
        Seq::empty()
    } else {
        lanes_to_holders(n - 1) + match overriding((n - 1) as u8) {
            Some(held) => seq![
                Line::Op3(
                    3,
                    Op::Pextrd,
                    Operand::R(held),
                    Operand::X(vector((n - 1) as u8)),
                    Operand::I(lane((n - 1) as u8) as u64),
                ),
            ],
            None => Seq::empty(),
        }
    }
}

/// Code that copies the general-purpose registers that hold one of the first `n` guest registers
/// to its lane.
pub open spec fn holders_to_lanes(n: int) -> Seq<Line>
    decreases n,
{
    if n <= 0 {
        Seq::empty()
    } else {
        holders_to_lanes(n - 1) + match overriding((n - 1) as u8) {
            Some(held) => seq![
                Line::Op3(
                    3,
                    Op::Pinsrd,
                    Operand::X(vector((n - 1) as u8)),
                    Operand::R(held),
                    Operand::I(lane((n - 1) as u8) as u64),
                ),
            ],
            None => Seq::empty(),
        }
    }
}

/// Code that copies the lane of every held guest register to its holder.
pub fn lanes_to_holders_code() -> (r: Vec<Line>)
    ensures
        r@ == lanes_to_holders(HOSTED_REGISTERS as int),
{
    let mut lines: Vec<Line> = Vec::new();
    let mut reg: u8 = 0;
    while reg < HOSTED_REGISTERS
        invariant
            reg <= HOSTED_REGISTERS,
            lines@ == lanes_to_holders(reg as int),
        decreases HOSTED_REGISTERS - reg,
    {
        if let Some(held) = overriding_register(reg) {
            let (vector, lane) = vector_and_lane(reg);
            lines.push(
                Line::Op3(
                    3,
                    Op::Pextrd,
                    Operand::R(held),
                    Operand::X(vector),
                    Operand::I(lane as u64),
                ),
            );
        }
        reg = reg + 1;
        assert(lines@ =~= lanes_to_holders(reg as int));
    }
    lines
}

/// Code that copies every held guest register from its holder to its lane.
pub fn holders_to_lanes_code() -> (r: Vec<Line>)
    ensures
        r@ == holders_to_lanes(HOSTED_REGISTERS as int),
{
    let mut lines: Vec<Line> = Vec::new();
    let mut reg: u8 = 0;
    while reg < HOSTED_REGISTERS
        invariant
            reg <= HOSTED_REGISTERS,
            lines@ == holders_to_lanes(reg as int),
        decreases HOSTED_REGISTERS - reg,
    {
        if let Some(held) = overriding_register(reg) {
            let (vector, lane) = vector_and_lane(reg);
            lines.push(
                Line::Op3(
                    3,
                    Op::Pinsrd,
                    Operand::X(vector),
                    Operand::R(held),
                    Operand::I(lane as u64),
                ),
            );
        }
        reg = reg + 1;
        assert(lines@ =~= holders_to_lanes(reg as int));
    }
    lines
}

/// The assembly that copies the lane of every held guest register to its holder.
pub fn sync_xmm_to_gpr() -> (r: String)
    ensures
        r@ == host::listing_text(lanes_to_holders(HOSTED_REGISTERS as int)),
{
    render(&lanes_to_holders_code())
}

/// The assembly that copies every held guest register from its holder to its lane.
pub fn sync_gpr_to_xmm() -> (r: String)
    ensures
        r@ == host::listing_text(holders_to_lanes(HOSTED_REGISTERS as int)),
{
    render(&holders_to_lanes_code())
}

/// No two guest registers share a place, and no place is one of the registers that the code of
/// an instruction computes in or that hold the counters of the run.
pub proof fn places_are_distinct(a: u8, b: u8)
    requires
        a < HOSTED_REGISTERS,
        b < HOSTED_REGISTERS,
        a != b,
    ensures
        overriding(a) is Some ==> overriding(a) != overriding(b),
        (vector(a), lane(a)) != (vector(b), lane(b)),
        overriding(a) matches Some(held) ==> {
            let gpr = held.gpr();
            &&& gpr != REG_A.gpr() && gpr != REG_B.gpr() && gpr != REG_C.gpr() && gpr
                != REG_D.gpr()
            &&& gpr != REG_ROR_W.gpr() && gpr != REG_EXECUTOR_PTR.gpr() && gpr
                != REG_MEMORY_PTR.gpr()
            &&& gpr != REG_CLK.gpr() && gpr != REG_SHARD.gpr()
        },
{
}

} // verus!
